use crate::runner::callctx::{
    disjoint, in_bounds, lemma_read_after_write, lemma_write_keeps_rest, mem_write, overwrite,
    spec_mem_read, spec_write_all, MemoryOutOfBounds,
};
use crate::sig::ImportFuncs;
use crate::types::{lemma_integer_le_bytes, lemma_le_bytes_roundtrip, spec_le_bytes, WasmPtr};
use vstd::prelude::*;

verus! {

/// Defines the functions on the host system: the time, the players and stopping.
pub fn define_all(import_funcs: &mut ImportFuncs)
    requires
        !old(import_funcs)@.contains("flywheel_system_dur_since_epoch"@),
        !old(import_funcs)@.contains("flywheel_system_players"@),
        !old(import_funcs)@.contains("flywheel_system_queue_stop"@),
    ensures
        final(import_funcs)@ == old(import_funcs)@ + seq![
            "flywheel_system_dur_since_epoch"@,
            "flywheel_system_players"@,
            "flywheel_system_queue_stop"@,
        ],
{
    let ghost before = import_funcs@;
    proof {
        reveal_strlit("flywheel_system_dur_since_epoch");
        reveal_strlit("flywheel_system_players");
        reveal_strlit("flywheel_system_queue_stop");
        assert("flywheel_system_dur_since_epoch"@.len() != "flywheel_system_players"@.len());
        assert("flywheel_system_dur_since_epoch"@.len() != "flywheel_system_queue_stop"@.len());
        assert("flywheel_system_players"@.len() != "flywheel_system_queue_stop"@.len());
    }
    import_funcs.define("flywheel_system_dur_since_epoch");
    import_funcs.define("flywheel_system_players");
    import_funcs.define("flywheel_system_queue_stop");
    assert(import_funcs@ =~= before + seq![
        "flywheel_system_dur_since_epoch"@,
        "flywheel_system_players"@,
        "flywheel_system_queue_stop"@,
    ]);
}

/// A span of time since the Unix epoch.
#[derive(Clone, Copy, Debug, PartialEq, Eq, Structural)]
pub struct EpochDuration {
    pub secs: u64,
    pub nanos: u32,
}

/// `a` lies after `b`: compared by seconds, then by nanoseconds.
pub open spec fn spec_after(a: EpochDuration, b: EpochDuration) -> bool {
    a.secs > b.secs || (a.secs == b.secs && a.nanos > b.nanos)
}

/// The time a clock reports when it last reported `last` and the system now
/// reads `now` (`None` for a time before the epoch): the system time if it
/// lies after `last`, else `last` again.
pub open spec fn spec_observe(last: EpochDuration, now: Option<EpochDuration>) -> EpochDuration {
    match now {
        Some(t) => if spec_after(t, last) {
            t
        } else {
            last
        },
        None => last,
    }
}

/// A clock that never goes back: it reports the latest system time it was
/// shown, starting from the epoch.
pub struct MonotonicClock {
    last: EpochDuration,
}

impl MonotonicClock {
    /// The time the clock reported last.
    pub closed spec fn last(self) -> EpochDuration {
        self.last
    }

    /// A clock that has reported the epoch.
    pub fn new() -> (c: Self)
        ensures
            c.last() == (EpochDuration { secs: 0, nanos: 0 }),
    {
        MonotonicClock { last: EpochDuration { secs: 0, nanos: 0 } }
    }

    /// Shows the clock the current system time (`None` for a time before the
    /// epoch) and returns the time it reports.
    pub fn observe(&mut self, now: Option<EpochDuration>) -> (r: EpochDuration)
        ensures
            r == spec_observe(old(self).last(), now),
            final(self).last() == r,
    {
        match now {
            Some(t) => {
                if t.secs > self.last.secs || (t.secs == self.last.secs && t.nanos > self.last.nanos) {
                    self.last = t;
                }
            },
            None => {},
        }
        self.last
    }
}

/// What a clock reports never lies before what it reported last, nor before
/// the system time it was shown.
pub proof fn lemma_observe_monotone(last: EpochDuration, now: Option<EpochDuration>)
    ensures
        !spec_after(last, spec_observe(last, now)),
        now matches Some(t) ==> !spec_after(t, spec_observe(last, now)),
{
}

/// Two reports of a clock in a row never go back in time.
pub proof fn lemma_observe_twice(last: EpochDuration, a: Option<EpochDuration>, b: Option<EpochDuration>)
    ensures
        !spec_after(spec_observe(last, a), spec_observe(spec_observe(last, a), b)),
{
}

/// The writes that hand a duration to the guest: the whole seconds as `u64`
/// at `out_secs`, then the nanoseconds as `u32` at `out_nanos`.
pub open spec fn spec_duration_writes(out_secs: WasmPtr<u64>, out_nanos: WasmPtr<u32>, d: EpochDuration) -> Seq<(int, Seq<u8>)> {
    seq![
        (out_secs.addr() as int, spec_le_bytes(d.secs)),
        (out_nanos.addr() as int, spec_le_bytes(d.nanos)),
    ]
}

/// Writing a duration succeeds exactly when the eight bytes at `out_secs`
/// and the four bytes at `out_nanos` both lie inside the memory.
pub proof fn lemma_duration_writes_fit(mem: Seq<u8>, out_secs: WasmPtr<u64>, out_nanos: WasmPtr<u32>, d: EpochDuration)
    ensures
        spec_write_all(mem, spec_duration_writes(out_secs, out_nanos, d)).1 == (in_bounds(
            mem,
            out_secs.addr() as int,
            8,
        ) && in_bounds(mem, out_nanos.addr() as int, 4)),
{
    let w = spec_duration_writes(out_secs, out_nanos, d);
    reveal_with_fuel(spec_write_all, 3);
    assert(w.drop_first() =~= seq![w[1]]);
    assert(seq![w[1]].drop_first() =~= Seq::<(int, Seq<u8>)>::empty());
    lemma_integer_le_bytes();
    crate::le::lemma_le_encode_len(d.secs as nat, 8);
    crate::le::lemma_le_encode_len(d.nanos as nat, 4);
    let m1 = overwrite(mem, out_secs.addr() as int, spec_le_bytes(d.secs));
    if in_bounds(mem, out_secs.addr() as int, 8) {
        assert(m1.len() == mem.len());
    }
}

/// When the seconds and the nanoseconds do not share a byte and both
/// writes fit, the guest reads the seconds back at `out_secs` and the
/// nanoseconds at `out_nanos`.
pub proof fn lemma_duration_readable(mem: Seq<u8>, out_secs: WasmPtr<u64>, out_nanos: WasmPtr<u32>, d: EpochDuration)
    requires
        disjoint(out_secs.addr() as int, 8, out_nanos.addr() as int, 4),
        spec_write_all(mem, spec_duration_writes(out_secs, out_nanos, d)).1,
    ensures
        ({
            let after = spec_write_all(mem, spec_duration_writes(out_secs, out_nanos, d)).0;
            &&& spec_mem_read::<u64>(after, out_secs.addr() as int) == Some(d.secs)
            &&& spec_mem_read::<u32>(after, out_nanos.addr() as int) == Some(d.nanos)
        }),
{
    let w = spec_duration_writes(out_secs, out_nanos, d);
    reveal_with_fuel(spec_write_all, 3);
    assert(w.drop_first() =~= seq![w[1]]);
    assert(seq![w[1]].drop_first() =~= Seq::<(int, Seq<u8>)>::empty());
    lemma_le_bytes_roundtrip(d.secs);
    lemma_le_bytes_roundtrip(d.nanos);
    let s = out_secs.addr() as int;
    let n = out_nanos.addr() as int;
    let m1 = overwrite(mem, s, spec_le_bytes(d.secs));
    let m2 = overwrite(m1, n, spec_le_bytes(d.nanos));
    lemma_read_after_write::<u64>(mem, s, d.secs);
    lemma_write_keeps_rest(m1, n, spec_le_bytes(d.nanos), s, 8);
    lemma_read_after_write::<u32>(m1, n, d.nanos);
}

/// Writes a duration for the guest: seconds at `out_secs`, then
/// nanoseconds at `out_nanos`; it stops at the first write that does not fit.
pub fn write_duration(memory: &mut [u8], out_secs: WasmPtr<u64>, out_nanos: WasmPtr<u32>, d: EpochDuration) -> (r: Result<(), MemoryOutOfBounds>)
    ensures
        (final(memory)@, r is Ok) == spec_write_all(old(memory)@, spec_duration_writes(out_secs, out_nanos, d)),
        r is Ok <==> in_bounds(old(memory)@, out_secs.addr() as int, 8) && in_bounds(
            old(memory)@,
            out_nanos.addr() as int,
            4,
        ),
        r is Ok && disjoint(out_secs.addr() as int, 8, out_nanos.addr() as int, 4) ==> {
            &&& spec_mem_read::<u64>(final(memory)@, out_secs.addr() as int) == Some(d.secs)
            &&& spec_mem_read::<u32>(final(memory)@, out_nanos.addr() as int) == Some(d.nanos)
        },
{
    let ghost w = spec_duration_writes(out_secs, out_nanos, d);
    proof {
        lemma_duration_writes_fit(memory@, out_secs, out_nanos, d);
        if spec_write_all(memory@, w).1 && disjoint(out_secs.addr() as int, 8, out_nanos.addr() as int, 4) {
            lemma_duration_readable(memory@, out_secs, out_nanos, d);
        }
        reveal_with_fuel(spec_write_all, 3);
        assert(w.drop_first() =~= seq![w[1]]);
        assert(seq![w[1]].drop_first() =~= Seq::<(int, Seq<u8>)>::empty());
        crate::types::lemma_le_bytes_roundtrip(d.secs);
        crate::types::lemma_le_bytes_roundtrip(d.nanos);
    }
    mem_write(memory, out_secs, d.secs)?;
    mem_write(memory, out_nanos, d.nanos)?;
    Ok(())
}

} // verus!
