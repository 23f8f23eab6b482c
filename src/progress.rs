//! Progress accounting: chunks merged against the chunks expected.
use vstd::prelude::*;

verus! {

/// Progress at completion, in hundredths of a percent.
pub const COMPLETE: u64 = 10000;

/// Number of chunks that `total_lines` lines make with `chunk_size` lines per
/// chunk: the ceiling of their quotient.
pub open spec fn chunk_count(total_lines: int, chunk_size: int) -> int {
    (total_lines + chunk_size - 1) / chunk_size
}

/// Progress in hundredths of a percent after `merged` of `total` chunks;
/// complete when nothing is expected or everything has arrived.
pub open spec fn progress_spec(merged: int, total: int) -> int {
    if total <= 0 || merged >= total {
        COMPLETE as int
    } else {
        (COMPLETE * merged) / total
    }
}

/// Number of chunks for `total_lines` lines of `chunk_size` lines each.
pub fn total_chunks(total_lines: usize, chunk_size: usize) -> (r: usize)
    requires
        chunk_size > 0,
    ensures
        r == chunk_count(total_lines as int, chunk_size as int),
        (r - 1) * chunk_size < total_lines <= r * chunk_size,
{
    let q = total_lines / chunk_size;
    let rem = total_lines % chunk_size;
    proof {
        let t = total_lines as int;
        let c = chunk_size as int;
        vstd::arithmetic::div_mod::lemma_fundamental_div_mod(t, c);
        assert(rem > 0 ==> q < usize::MAX) by (nonlinear_arith)
            requires
                t == c * q + rem,
                0 <= rem < c,
                t <= usize::MAX,
                q >= 0,
        ;
    }
    let r = if rem == 0 { q } else { q + 1 };
    proof {
        let t = total_lines as int;
        let c = chunk_size as int;
        assert(t == q * c + rem) by (nonlinear_arith)
            requires
                t == c * q + rem,
        ;
        assert(chunk_count(t, c) == r) by (nonlinear_arith)
            requires
                t == q * c + rem,
                0 <= rem < c,
                r == if rem == 0 { q as int } else { q + 1 },
                c > 0,
        {
            if rem == 0 {
                assert((q * c + c - 1) / c == q) by {
                    vstd::arithmetic::div_mod::lemma_fundamental_div_mod_converse(
                        q * c + c - 1,
                        c,
                        q as int,
                        c - 1,
                    );
                }
            } else {
                assert((q * c + rem + c - 1) / c == q + 1) by {
                    vstd::arithmetic::div_mod::lemma_fundamental_div_mod_converse(
                        q * c + rem + c - 1,
                        c,
                        q + 1,
                        rem - 1,
                    );
                }
            }
        }
        assert((r - 1) * c < t <= r * c) by (nonlinear_arith)
            requires
                t == q * c + rem,
                0 <= rem < c,
                r == if rem == 0 { q as int } else { q + 1 },
                c > 0,
        ;
    }
    r
}

/// Progress in hundredths of a percent after `merged` of `total` chunks.
pub fn progress_basis_points(merged: usize, total: usize) -> (r: u64)
    ensures
        r == progress_spec(merged as int, total as int),
        r <= COMPLETE,
{
    if total == 0 || merged >= total {
        COMPLETE
    } else {
        let p = (COMPLETE as u128 * merged as u128) / total as u128;
        proof {
            assert(COMPLETE * merged <= COMPLETE * total) by (nonlinear_arith)
                requires
                    merged < total,
            ;
            vstd::arithmetic::div_mod::lemma_div_is_ordered(
                COMPLETE * merged as int,
                COMPLETE * total as int,
                total as int,
            );
            vstd::arithmetic::div_mod::lemma_div_by_multiple(COMPLETE as int, total as int);
        }
        p as u64
    }
}

/// Progress monotonicity: more chunks merged never shows less progress, and
/// once every chunk has arrived progress is exactly complete.
pub proof fn lemma_progress_monotone(m1: int, m2: int, total: int)
    requires
        0 <= m1 <= m2,
    ensures
        progress_spec(m1, total) <= progress_spec(m2, total),
        progress_spec(total, total) == COMPLETE,
        0 <= progress_spec(m1, total) <= COMPLETE,
{
    if total > 0 && m1 < total {
        assert(COMPLETE * m1 <= COMPLETE * total) by (nonlinear_arith)
            requires
                m1 < total,
        ;
        vstd::arithmetic::div_mod::lemma_div_by_multiple(COMPLETE as int, total);
        vstd::arithmetic::div_mod::lemma_div_is_ordered(COMPLETE * m1, COMPLETE * total, total);
        if m2 < total {
            assert(COMPLETE * m1 <= COMPLETE * m2) by (nonlinear_arith)
                requires
                    m1 <= m2,
            ;
            vstd::arithmetic::div_mod::lemma_div_is_ordered(COMPLETE * m1, COMPLETE * m2, total);
        }
        vstd::arithmetic::div_mod::lemma_div_pos_is_pos(COMPLETE * m1, total);
    }
}

/// Empty input: no lines make no chunks, and progress is complete at once.
pub proof fn lemma_empty_input(chunk_size: int)
    requires
        chunk_size > 0,
    ensures
        chunk_count(0, chunk_size) == 0,
        progress_spec(0, chunk_count(0, chunk_size)) == COMPLETE,
{
    assert((chunk_size - 1) / chunk_size == 0) by {
        vstd::arithmetic::div_mod::lemma_basic_div(chunk_size - 1, chunk_size);
    }
}

/// The consumer's progress counter.
pub struct Progress {
    merged: usize,
    total: usize,
}

impl Progress {
    pub closed spec fn merged_spec(&self) -> nat {
        self.merged as nat
    }

    pub closed spec fn total_spec(&self) -> nat {
        self.total as nat
    }

    /// No chunk merged yet, `total` expected.
    pub fn new(total: usize) -> (r: Progress)
        ensures
            r.merged_spec() == 0,
            r.total_spec() == total,
    {
        Progress { merged: 0, total }
    }

    /// Counts one more merged chunk and returns the progress now shown.
    pub fn record_merge(&mut self) -> (r: u64)
        requires
            old(self).merged_spec() < usize::MAX,
        ensures
            final(self).merged_spec() == old(self).merged_spec() + 1,
            final(self).total_spec() == old(self).total_spec(),
            r == progress_spec(final(self).merged_spec() as int, final(self).total_spec() as int),
            r >= progress_spec(old(self).merged_spec() as int, old(self).total_spec() as int),
    {
        proof {
            lemma_progress_monotone(self.merged as int, self.merged as int + 1, self.total as int);
        }
        self.merged = self.merged + 1;
        progress_basis_points(self.merged, self.total)
    }

    /// Number of chunks merged so far.
    pub fn merged(&self) -> (r: usize)
        ensures
            r == self.merged_spec(),
    {
        self.merged
    }

    /// Progress after the last merge: complete.
    pub fn finish(&self) -> (r: u64)
        ensures
            r == COMPLETE,
    {
        COMPLETE
    }

    /// Progress now shown.
    pub fn current(&self) -> (r: u64)
        ensures
            r == progress_spec(self.merged_spec() as int, self.total_spec() as int),
    {
        progress_basis_points(self.merged, self.total)
    }
}

} // verus!
