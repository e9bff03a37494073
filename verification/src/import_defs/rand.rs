use crate::sig::ImportFuncs;
use vstd::prelude::*;

verus! {

/// Defines the function that hands out random numbers.
pub fn define_all(import_funcs: &mut ImportFuncs)
    requires
        !old(import_funcs)@.contains("flywheel_rand_u64"@),
    ensures
        final(import_funcs)@ == old(import_funcs)@ + seq!["flywheel_rand_u64"@],
{
    let ghost before = import_funcs@;
    import_funcs.define("flywheel_rand_u64");
    assert(import_funcs@ =~= before + seq!["flywheel_rand_u64"@]);
}

/// Calls `TryRngCore::try_next_u64` on `rand::rngs::OsRng`, which draws
/// from the operating system's random source and reports a failure of that
/// source as an error rather than panicking; the error is dropped. The
/// value rests on chance, so nothing is stated of it.
#[verifier::external_body]
fn os_random_u64() -> Option<u64> {
    rand::TryRngCore::try_next_u64(&mut rand::rngs::OsRng).ok()
}

/// What the guest gets for a draw from the random source: the number
/// drawn, or, when the source failed, an error saying so.
pub fn rand_outcome(draw: Option<u64>) -> (r: Result<u64, String>)
    ensures
        draw matches Some(v) ==> (r matches Ok(x) && x == v),
        draw is None ==> (r matches Err(msg) && msg@ == "random source unavailable"@),
{
    match draw {
        Some(v) => Ok(v),
        None => Err("random source unavailable".to_owned()),
    }
}

/// The host function `flywheel_rand_u64`: a number drawn from the
/// operating system's random source for the guest, or, when that source
/// fails, an error saying so. Which of the two comes back rests on the
/// source, so the contract holds of both; `rand_outcome` states which
/// draw gives which.
pub fn flywheel_rand_u64() -> (r: Result<u64, String>)
    ensures
        r matches Err(msg) ==> msg@ == "random source unavailable"@,
{
    rand_outcome(os_random_u64())
}

} // verus!
