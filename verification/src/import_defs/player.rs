use crate::sig::ImportFuncs;
use vstd::prelude::*;

verus! {

/// Defines the functions that send text to a player.
pub fn define_all(import_funcs: &mut ImportFuncs)
    requires
        !old(import_funcs)@.contains("flywheel_player_send_chat"@),
        !old(import_funcs)@.contains("flywheel_player_send_actionbar"@),
        !old(import_funcs)@.contains("flywheel_player_send_title"@),
    ensures
        final(import_funcs)@ == old(import_funcs)@ + seq![
            "flywheel_player_send_chat"@,
            "flywheel_player_send_actionbar"@,
            "flywheel_player_send_title"@,
        ],
{
    let ghost before = import_funcs@;
    proof {
        reveal_strlit("flywheel_player_send_chat");
        reveal_strlit("flywheel_player_send_actionbar");
        reveal_strlit("flywheel_player_send_title");
        assert("flywheel_player_send_chat"@.len() != "flywheel_player_send_actionbar"@.len());
        assert("flywheel_player_send_chat"@.len() != "flywheel_player_send_title"@.len());
        assert("flywheel_player_send_actionbar"@.len() != "flywheel_player_send_title"@.len());
    }
    import_funcs.define("flywheel_player_send_chat");
    import_funcs.define("flywheel_player_send_actionbar");
    import_funcs.define("flywheel_player_send_title");
    assert(import_funcs@ =~= before + seq![
        "flywheel_player_send_chat"@,
        "flywheel_player_send_actionbar"@,
        "flywheel_player_send_title"@,
    ]);
}

} // verus!
