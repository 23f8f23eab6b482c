//! Run settings.
use vstd::prelude::*;

verus! {

/// Lines per chunk unless configured otherwise.
pub const DEFAULT_CHUNK_SIZE: usize = 100000;

/// Relies on num_cpus::get: the number of processing units available to
/// this process. Nothing is promised of the number.
#[verifier::external_body]
fn host_processing_units() -> (r: usize) {
    num_cpus::get()
}

/// Maximum number of chunks processed at once: `requested` where it is
/// positive, else the host's processing units (at least one).
pub fn worker_count(requested: Option<usize>) -> (r: usize)
    ensures
        r >= 1,
        match requested {
            Some(n) => n > 0 ==> r == n,
            None => true,
        },
{
    match requested {
        Some(n) if n > 0 => n,
        _ => {
            let host = host_processing_units();
            if host == 0 {
                1
            } else {
                host
            }
        },
    }
}

/// Lines per chunk: `requested` where it is positive, else the default.
pub fn chunk_size(requested: Option<usize>) -> (r: usize)
    ensures
        r >= 1,
        match requested {
            Some(n) => (n > 0 ==> r == n) && (n == 0 ==> r == DEFAULT_CHUNK_SIZE),
            None => r == DEFAULT_CHUNK_SIZE,
        },
{
    match requested {
        Some(n) if n > 0 => n,
        _ => DEFAULT_CHUNK_SIZE,
    }
}

} // verus!
