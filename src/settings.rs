//! The signature of the engine's tunable runtime settings.
use vstd::prelude::*;
use vstd::string::StringExecFns;
use crate::text::{int_text, push_int};

verus! {

/// The tunables that a settings signature records. The hash-memory
/// multiplier is held as its decimal text, as the engine prints it.
pub struct EngineSettings {
    /// Size of the shared buffer pool, in buffers.
    pub buffers: i32,
    /// Number of temporary buffers per session.
    pub temp_buffers: i32,
    /// Working memory per operation, in kilobytes.
    pub work_mem: i32,
    /// Multiple of the working memory that hash tables may use, as text.
    pub hash_mem_multiplier: String,
    /// Number of concurrent I/O requests the engine may issue.
    pub io_concurrency: i32,
}

/// The five tunables in their fixed order, separated by single spaces.
pub open spec fn settings_sig(s: EngineSettings) -> Seq<char> {
    int_text(s.buffers as int) + seq![' '] + int_text(s.temp_buffers as int) + seq![' ']
        + int_text(s.work_mem as int) + seq![' '] + s.hash_mem_multiplier@ + seq![' ']
        + int_text(s.io_concurrency as int)
}

/// The signature of the given settings: buffers, temporary buffers, working
/// memory, hash-memory multiplier and I/O concurrency, space-separated.
pub fn compute_settings_signature(settings: &EngineSettings) -> (r: String)
    ensures
        r@ == settings_sig(*settings),
{
    let mut out = String::new();
    push_int(&mut out, settings.buffers as i64);
    out.append(" ");
    push_int(&mut out, settings.temp_buffers as i64);
    out.append(" ");
    push_int(&mut out, settings.work_mem as i64);
    out.append(" ");
    out.append(settings.hash_mem_multiplier.as_str());
    out.append(" ");
    push_int(&mut out, settings.io_concurrency as i64);
    proof {
        reveal_strlit(" ");
        assert(out@ =~= settings_sig(*settings));
    }
    out
}

} // verus!
