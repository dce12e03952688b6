//! Advancing the ledger: in steps of at most a day, so that the contract can
//! be kept alive between steps.
use vstd::prelude::*;
use crate::DAY_IN_LEDGERS;
use crate::model::Violation;

verus! {

/// Seconds in a day.
pub const SECONDS_PER_DAY: u64 = 86400;

/// How far to advance the ledger next.
#[derive(Debug, PartialEq, Eq, Structural, Clone, Copy)]
pub struct LedgerStep {
    /// Ledgers to advance by.
    pub ledgers: u32,
    /// This step reaches the target ledger.
    pub reaches_target: bool,
}

/// Seconds a ledger takes to close: a day divided by the ledgers of a day.
pub fn seconds_per_ledger() -> (r: u64)
    ensures
        r == SECONDS_PER_DAY / (DAY_IN_LEDGERS as u64),
        r == 5,
{
    let ledgers_per_day = DAY_IN_LEDGERS as u64;
    SECONDS_PER_DAY / ledgers_per_day
}

/// The ledger that advancing by `ledgers` from `sequence` is to reach, or
/// `EndOfTime` where that leaves the range of `u32`.
pub fn advance_target(sequence: u32, ledgers: u32) -> (r: Result<u32, Violation>)
    ensures
        sequence + ledgers <= u32::MAX ==> r == Ok::<u32, Violation>(
            (sequence + ledgers) as u32,
        ),
        sequence + ledgers > u32::MAX ==> r == Err::<u32, Violation>(Violation::EndOfTime),
{
    match sequence.checked_add(ledgers) {
        Some(t) => Ok(t),
        None => Err(Violation::EndOfTime),
    }
}

/// The step `next_ledger_step` takes from `current` towards `target`.
pub open spec fn ledger_step(current: u32, target: u32) -> Result<LedgerStep, Violation> {
    if current >= target {
        Err(Violation::LedgerNotAhead)
    } else if current + DAY_IN_LEDGERS > u32::MAX {
        Err(Violation::EndOfTime)
    } else {
        Ok(
            LedgerStep {
                ledgers: (if current + DAY_IN_LEDGERS < target {
                    DAY_IN_LEDGERS as int
                } else {
                    target - current
                }) as u32,
                reaches_target: current + DAY_IN_LEDGERS >= target,
            },
        )
    }
}

/// The sequence and time `advanced_ledger` gives.
pub open spec fn ledger_advanced(sequence: u32, timestamp: u64, ledgers: u32) -> Result<
    (u32, u64),
    Violation,
> {
    if sequence + ledgers <= u32::MAX && timestamp + 5 * ledgers <= u64::MAX {
        Ok(((sequence + ledgers) as u32, (timestamp + 5 * ledgers) as u64))
    } else {
        Err(Violation::EndOfTime)
    }
}

/// Advancing from ledger `sequence` at time `timestamp` to ledger `target`,
/// the way a run does: take `next_ledger_step`, advance by it with
/// `advanced_ledger`, and go on until a step reaches the target. The final
/// sequence and time and the number of steps taken, or the first finding.
pub open spec fn advance_loop(sequence: u32, timestamp: u64, target: u32) -> Result<
    (u32, u64, nat),
    Violation,
>
    decreases target - sequence,
{
    match ledger_step(sequence, target) {
        Err(e) => Err(e),
        Ok(step) => match ledger_advanced(sequence, timestamp, step.ledgers) {
            Err(e) => Err(e),
            Ok((s, t)) => if step.reaches_target {
                Ok((s, t, 1))
            } else {
                match advance_loop(s, t, target) {
                    Ok((s2, t2, k)) => Ok((s2, t2, k + 1)),
                    Err(e) => Err(e),
                }
            },
        },
    }
}

/// Law: advancing to a ledger ahead, where a day past any ledger before the
/// target and the time added stay in range, reaches exactly the target,
/// adds five seconds per ledger, and takes the least number of day-sized
/// steps that covers the distance: `ceil((target - sequence) / DAY_IN_LEDGERS)`.
pub proof fn lemma_advance_loop_reaches_target(sequence: u32, timestamp: u64, target: u32)
    requires
        sequence < target,
        target - 1 + DAY_IN_LEDGERS <= u32::MAX,
        timestamp + 5 * (target - sequence) <= u64::MAX,
    ensures
        advance_loop(sequence, timestamp, target) matches Ok((s, t, k)) && s == target && t
            == timestamp + 5 * (target - sequence) && (k - 1) * DAY_IN_LEDGERS < target - sequence
            <= k * DAY_IN_LEDGERS,
    decreases target - sequence,
{
    let step = ledger_step(sequence, target).unwrap();
    if !step.reaches_target {
        let s = (sequence + DAY_IN_LEDGERS) as u32;
        let t = (timestamp + 5 * DAY_IN_LEDGERS) as u64;
        assert(ledger_advanced(sequence, timestamp, step.ledgers) == Ok::<(u32, u64), Violation>(
            (s, t),
        ));
        lemma_advance_loop_reaches_target(s, t, target);
    }
}

/// The next step from ledger `current` towards ledger `target`: a day's
/// worth of ledgers, or what is left if that is less. `LedgerNotAhead` where
/// the target is not ahead, and `EndOfTime` where a day past `current` leaves
/// the range of `u32`.
pub fn next_ledger_step(current: u32, target: u32) -> (r: Result<LedgerStep, Violation>)
    ensures
        current >= target ==> r == Err::<LedgerStep, Violation>(Violation::LedgerNotAhead),
        current < target && current + DAY_IN_LEDGERS > u32::MAX ==> r == Err::<
            LedgerStep,
            Violation,
        >(Violation::EndOfTime),
        current < target && current + DAY_IN_LEDGERS <= u32::MAX ==> r == Ok::<
            LedgerStep,
            Violation,
        >(
            LedgerStep {
                ledgers: (if current + DAY_IN_LEDGERS < target {
                    DAY_IN_LEDGERS as int
                } else {
                    target - current
                }) as u32,
                reaches_target: current + DAY_IN_LEDGERS >= target,
            },
        ),
        r matches Ok(step) ==> 0 < step.ledgers <= DAY_IN_LEDGERS && current + step.ledgers
            <= target && (step.reaches_target <==> current + step.ledgers == target),
        r == ledger_step(current, target),
{
    if current >= target {
        return Err(Violation::LedgerNotAhead);
    }
    let next = match current.checked_add(DAY_IN_LEDGERS) {
        Some(n) => n,
        None => {
            return Err(Violation::EndOfTime);
        },
    };
    let next = if next < target {
        next
    } else {
        target
    };
    Ok(LedgerStep { ledgers: next - current, reaches_target: next == target })
}

/// The ledger sequence and time after advancing by `ledgers` ledgers, each
/// taking `seconds_per_ledger()` seconds; `EndOfTime` where either leaves
/// its integer range.
pub fn advanced_ledger(sequence: u32, timestamp: u64, ledgers: u32) -> (r: Result<
    (u32, u64),
    Violation,
>)
    ensures
        sequence + ledgers <= u32::MAX && timestamp + 5 * ledgers <= u64::MAX ==> r == Ok::<
            (u32, u64),
            Violation,
        >(((sequence + ledgers) as u32, (timestamp + 5 * ledgers) as u64)),
        !(sequence + ledgers <= u32::MAX && timestamp + 5 * ledgers <= u64::MAX) ==> r == Err::<
            (u32, u64),
            Violation,
        >(Violation::EndOfTime),
        r == ledger_advanced(sequence, timestamp, ledgers),
{
    let secs_per_ledger = seconds_per_ledger();
    let ledger_time = match secs_per_ledger.checked_mul(ledgers as u64) {
        Some(t) => t,
        None => {
            return Err(Violation::EndOfTime);
        },
    };
    let new_sequence = match sequence.checked_add(ledgers) {
        Some(s) => s,
        None => {
            return Err(Violation::EndOfTime);
        },
    };
    let new_timestamp = match timestamp.checked_add(ledger_time) {
        Some(t) => t,
        None => {
            return Err(Violation::EndOfTime);
        },
    };
    Ok((new_sequence, new_timestamp))
}

} // verus!
