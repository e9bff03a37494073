use crate::sig::ImportFuncs;
use vstd::prelude::*;

verus! {

/// Defines the function that looks up a player's profile.
pub fn define_all(import_funcs: &mut ImportFuncs)
    requires
        !old(import_funcs)@.contains("flywheel_profile_from_session"@),
    ensures
        final(import_funcs)@ == old(import_funcs)@ + seq!["flywheel_profile_from_session"@],
{
    let ghost before = import_funcs@;
    import_funcs.define("flywheel_profile_from_session");
    assert(import_funcs@ =~= before + seq!["flywheel_profile_from_session"@]);
}

} // verus!
