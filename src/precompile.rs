//! Precompiled contracts whose gas cost is linear in the input length.

use vstd::prelude::*;

verus! {

/// Why a precompile stopped without success.
#[derive(Clone, Copy, Debug, PartialEq, Eq, Structural)]
pub enum ExitError {
    OutOfGas,
}

/// How a precompile finished.
#[derive(Clone, Copy, Debug, PartialEq, Eq, Structural)]
pub enum ExitSucceed {
    Stopped,
    Returned,
}

/// What a precompile hands back: how it finished, what it cost, what it returned.
#[derive(Clone, Debug, PartialEq, Eq)]
pub struct PrecompileOutput {
    pub exit_status: ExitSucceed,
    pub cost: u64,
    pub output: Vec<u8>,
}

/// The number of 32-byte words in `len` bytes, counting a partial word as a
/// whole one (the count saturates at the top of `u64`).
pub open spec fn words(len: u64) -> int {
    (if len as int + 31 > u64::MAX { u64::MAX as int } else { len as int + 31 }) / 32
}

/// A base cost and a cost per word of input.
pub open spec fn linear_cost(len: u64, base: u64, word: u64) -> int {
    base as int + word as int * words(len)
}

/// The linear cost of an input of `len` bytes; out of gas when that cost
/// leaves `u64` or exceeds the gas on offer.
pub fn ensure_linear_cost(target_gas: Option<u64>, len: u64, base: u64, word: u64) -> (r: Result<
    u64,
    ExitError,
>)
    ensures
        match r {
            Ok(c) => c as int == linear_cost(len, base, word) && (target_gas matches Some(t) ==> c
                <= t),
            Err(e) => e == ExitError::OutOfGas && (linear_cost(len, base, word) > u64::MAX
                || (target_gas matches Some(t) && linear_cost(len, base, word) > t)),
        },
{
    let w = len.saturating_add(31) / 32;
    let per = match word.checked_mul(w) {
        Some(p) => p,
        None => {
            assert(linear_cost(len, base, word) > u64::MAX) by (nonlinear_arith)
                requires
                    word as int * w as int > u64::MAX,
                    w as int == words(len),
                    linear_cost(len, base, word) == base as int + word as int * words(len),
            ;
            return Err(ExitError::OutOfGas);
        },
    };
    let cost = match base.checked_add(per) {
        Some(c) => c,
        None => {
            return Err(ExitError::OutOfGas);
        },
    };
    if let Some(t) = target_gas {
        if cost > t {
            return Err(ExitError::OutOfGas);
        }
    }
    Ok(cost)
}

/// A precompile whose cost is `BASE` plus `WORD` per 32-byte word of input.
pub trait LinearCostPrecompile {
    const BASE: u64;

    const WORD: u64;

    fn execute(input: &[u8], cost: u64) -> Result<(ExitSucceed, Vec<u8>), ExitError>;
}

/// Runs a linear-cost precompile once its cost is known to be covered.
pub fn execute_linear<T: LinearCostPrecompile>(input: &[u8], target_gas: Option<u64>) -> (r: Result<
    PrecompileOutput,
    ExitError,
>)
    ensures
        linear_cost(input@.len() as u64, T::BASE, T::WORD) > u64::MAX || (target_gas matches Some(
            t,
        ) && linear_cost(input@.len() as u64, T::BASE, T::WORD) > t) ==> r == Err::<
            PrecompileOutput,
            ExitError,
        >(ExitError::OutOfGas),
        r matches Ok(o) ==> o.cost as int == linear_cost(input@.len() as u64, T::BASE, T::WORD),
{
    let cost = ensure_linear_cost(target_gas, input.len() as u64, T::BASE, T::WORD)?;
    let (exit_status, output) = T::execute(input, cost)?;
    Ok(PrecompileOutput { exit_status, cost, output })
}

} // verus!
