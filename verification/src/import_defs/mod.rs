//! The functions a guest module can import from the host.

use crate::sig::ImportFuncs;
use vstd::prelude::*;

pub mod player;
pub mod profile;
pub mod rand;
pub mod system;
pub mod block_layout;
pub mod world;

verus! {

/// The names of every function a guest can import, in the order they are defined.
pub open spec fn spec_import_names() -> Seq<Seq<char>> {
    seq![
        "flywheel_refuel"@,
        "flywheel_next_event"@,
        "flywheel_system_dur_since_epoch"@,
        "flywheel_system_players"@,
        "flywheel_system_queue_stop"@,
        "flywheel_rand_u64"@,
        "flywheel_player_send_chat"@,
        "flywheel_player_send_actionbar"@,
        "flywheel_player_send_title"@,
        "flywheel_profile_from_session"@,
    ]
}

/// No two importable functions share a name.
pub proof fn lemma_import_names_distinct()
    ensures
        spec_import_names().no_duplicates(),
{
    reveal_strlit("flywheel_refuel");
    reveal_strlit("flywheel_next_event");
    reveal_strlit("flywheel_system_dur_since_epoch");
    reveal_strlit("flywheel_system_players");
    reveal_strlit("flywheel_system_queue_stop");
    reveal_strlit("flywheel_rand_u64");
    reveal_strlit("flywheel_player_send_chat");
    reveal_strlit("flywheel_player_send_actionbar");
    reveal_strlit("flywheel_player_send_title");
    reveal_strlit("flywheel_profile_from_session");
    let names = spec_import_names();
    assert(names[0].len() == 15);
    assert(names[1].len() == 19);
    assert(names[2].len() == 31);
    assert(names[3].len() == 23);
    assert(names[4].len() == 26);
    assert(names[5].len() == 17);
    assert(names[6].len() == 25);
    assert(names[7].len() == 30);
    assert(names[8].len() == 26);
    assert(names[9].len() == 29);
    assert(names[4][9] != names[8][9]);
}

/// Defines every function a guest can import, each once.
pub fn define_all(import_funcs: &mut ImportFuncs)
    requires
        forall|i: int|
            0 <= i < spec_import_names().len() ==> !old(import_funcs)@.contains(
                #[trigger] spec_import_names()[i],
            ),
    ensures
        final(import_funcs)@ == old(import_funcs)@ + spec_import_names(),
{
    let ghost before = import_funcs@;
    let ghost names = spec_import_names();
    proof {
        lemma_import_names_distinct();
        assert forall|i: int| 0 <= i < names.len() implies !before.contains(#[trigger] names[i]) by {}
    }
    import_funcs.define("flywheel_refuel");
    import_funcs.define("flywheel_next_event");
    system::define_all(import_funcs);
    rand::define_all(import_funcs);
    player::define_all(import_funcs);
    profile::define_all(import_funcs);
    assert(import_funcs@ =~= before + names);
}

} // verus!
