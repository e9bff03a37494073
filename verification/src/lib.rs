//! Host-side logic of the Flywheel WASM plugin runtime: the pointers and
//! little-endian values that cross the guest boundary, bounds-checked access
//! to a guest's linear memory, the import-function registry, the events
//! handed to guests and the player-session registry of a runner.

use vstd::prelude::*;

pub mod le;
pub mod types;
pub mod runner;
pub mod import_defs;
pub mod sig;

verus! {

/// The version of the host interface a guest is built against.
pub const PROTOCOL_VERSION: u64 = 0;

/// The plugin that runs WASM modules on the server: the functions it offers
/// guests and the functions it expects them to export.
pub struct FlywheelMcWasmPlugin {
    /// Functions provided to WASM modules for import.
    pub import_funcs: sig::ImportFuncs,
    /// Functions that a WASM module can export.
    pub export_funcs: sig::ExportFuncs,
}

impl Default for FlywheelMcWasmPlugin {
    fn default() -> (p: Self)
        ensures
            p.import_funcs@ == import_defs::spec_import_names(),
            p.export_funcs@ == map![
                "flywheel_protocol"@ => (seq![], seq![sig::WasmValType::I64], true),
                "flywheel_init"@ => (seq![], seq![], true),
                "flywheel_alloc"@ => (
                    seq![sig::WasmValType::I32, sig::WasmValType::I32],
                    seq![sig::WasmValType::I32],
                    true,
                ),
            ],
    {
        let mut import_funcs = sig::ImportFuncs::new();
        import_defs::define_all(&mut import_funcs);
        assert(import_funcs@ =~= import_defs::spec_import_names());
        let mut export_funcs = sig::ExportFuncs::new();
        let protocol_results = vec![sig::WasmValType::I64];
        let alloc_params = vec![sig::WasmValType::I32, sig::WasmValType::I32];
        let alloc_results = vec![sig::WasmValType::I32];
        assert(protocol_results@ =~= seq![sig::WasmValType::I64]);
        assert(alloc_params@ =~= seq![sig::WasmValType::I32, sig::WasmValType::I32]);
        assert(alloc_results@ =~= seq![sig::WasmValType::I32]);
        export_funcs.define("flywheel_protocol", Vec::new(), protocol_results, true);
        export_funcs.define("flywheel_init", Vec::new(), Vec::new(), true);
        export_funcs.define("flywheel_alloc", alloc_params, alloc_results, true);
        proof {
            reveal_strlit("flywheel_protocol");
            reveal_strlit("flywheel_init");
            reveal_strlit("flywheel_alloc");
            assert(export_funcs@ =~~= map![
                "flywheel_protocol"@ => (seq![], seq![sig::WasmValType::I64], true),
                "flywheel_init"@ => (seq![], seq![], true),
                "flywheel_alloc"@ => (
                    seq![sig::WasmValType::I32, sig::WasmValType::I32],
                    seq![sig::WasmValType::I32],
                    true,
                ),
            ]);
        }
        FlywheelMcWasmPlugin { import_funcs, export_funcs }
    }
}

} // verus!
