use vstd::prelude::*;

verus! {

/// A Windows `FILETIME`: a 64-bit count split into two 32-bit halves.
#[derive(Debug, Clone, Copy, PartialEq, Eq, Structural)]
pub struct FileTime {
    pub low: u32,
    pub high: u32,
}

/// The 64-bit count that a `FileTime` holds.
pub open spec fn file_time_value(v: FileTime) -> nat {
    v.high as nat * 4294967296 + v.low as nat
}

/// The 64-bit count that `v` holds.
pub fn ft(v: FileTime) -> (r: u64)
    ensures
        r == file_time_value(v),
{
    let high = v.high as u64;
    let low = v.low as u64;
    let r = (high << 32u64) | low;
    assert(r == high * 4294967296 + low) by (bit_vector)
        requires
            r == (high << 32u64) | low,
            high < 4294967296,
            low < 4294967296,
    ;
    r
}

/// `a - b`, or 0 when `b` is larger.
pub open spec fn saturating_diff(a: u64, b: u64) -> nat {
    if a >= b {
        (a - b) as nat
    } else {
        0
    }
}

/// The idle time and the busy-plus-idle time that passed between two
/// readings of the system times (idle, kernel, user); a counter that went
/// back counts as no time, and the total stops at `u64::MAX`.
pub open spec fn cpu_deltas_of(prev: (u64, u64, u64), now: (u64, u64, u64)) -> (nat, nat) {
    let idle = saturating_diff(now.0, prev.0);
    let kernel = saturating_diff(now.1, prev.1);
    let user = saturating_diff(now.2, prev.2);
    (idle, if kernel + user > u64::MAX { u64::MAX as nat } else { kernel + user })
}

/// The idle and total time between two readings (see `cpu_deltas_of`).
pub fn cpu_deltas(prev: (u64, u64, u64), now: (u64, u64, u64)) -> (r: (u64, u64))
    ensures
        (r.0 as nat, r.1 as nat) == cpu_deltas_of(prev, now),
{
    let idle = now.0.saturating_sub(prev.0);
    let kernel = now.1.saturating_sub(prev.1);
    let user = now.2.saturating_sub(prev.2);
    (idle, kernel.saturating_add(user))
}

/// The smallest number of source records in one fuzzy batch.
pub const MIN_FUZZY_CHUNK: usize = 250;

/// The largest number of source records in one fuzzy batch.
pub const MAX_FUZZY_CHUNK: usize = 20000;

/// How the machine's memory stands against the configured limits.
#[derive(Debug, Clone, Copy, PartialEq, Eq, Structural)]
pub enum MemoryPressure {
    /// The memory in use reached the limit, or what is free no longer
    /// exceeds the reserve.
    High,
    /// Little memory is in use and what is free is well above the reserve.
    Relaxed,
    /// Neither.
    Normal,
}

/// `v` held between the smallest and the largest fuzzy batch.
pub open spec fn chunk_clamped(v: int) -> int {
    if v < MIN_FUZZY_CHUNK {
        MIN_FUZZY_CHUNK as int
    } else if v > MAX_FUZZY_CHUNK {
        MAX_FUZZY_CHUNK as int
    } else {
        v
    }
}

/// The smaller of `a` and `b`.
pub open spec fn min_of(a: int, b: int) -> int {
    if a <= b {
        a
    } else {
        b
    }
}

/// The larger of `a` and `b`.
pub open spec fn max_of(a: int, b: int) -> int {
    if a >= b {
        a
    } else {
        b
    }
}

/// The number of source records in the next fuzzy batch: the configured
/// size, held under what the free memory allows (`ram_bound`, never taken
/// below the smallest batch), halved under memory pressure and doubled
/// (within both limits) when memory is plentiful; without a memory reading
/// (`ram_bound` is `None`) the configured size alone. The result always lies
/// between the smallest and the largest batch.
pub open spec fn fuzzy_chunk_size_of(configured: int, ram_bound: Option<usize>, pressure: MemoryPressure) -> int {
    match ram_bound {
        None => chunk_clamped(configured),
        Some(bound) => {
            let cap = max_of(bound as int, MIN_FUZZY_CHUNK as int);
            let target = min_of(configured, cap);
            chunk_clamped(
                match pressure {
                    MemoryPressure::High => max_of(target / 2, MIN_FUZZY_CHUNK as int),
                    MemoryPressure::Relaxed => min_of(min_of(target * 2, MAX_FUZZY_CHUNK as int), cap),
                    MemoryPressure::Normal => target,
                },
            )
        },
    }
}

/// The size of the next fuzzy batch (see `fuzzy_chunk_size_of`).
pub fn fuzzy_chunk_size(configured: usize, ram_bound: Option<usize>, pressure: MemoryPressure) -> (r: usize)
    ensures
        r == fuzzy_chunk_size_of(configured as int, ram_bound, pressure),
        MIN_FUZZY_CHUNK <= r <= MAX_FUZZY_CHUNK,
{
    let target = match ram_bound {
        None => configured,
        Some(bound) => {
            let cap = if bound >= MIN_FUZZY_CHUNK { bound } else { MIN_FUZZY_CHUNK };
            let t = if configured <= cap { configured } else { cap };
            match pressure {
                MemoryPressure::High => {
                    let half = t / 2;
                    if half >= MIN_FUZZY_CHUNK { half } else { MIN_FUZZY_CHUNK }
                },
                MemoryPressure::Relaxed => {
                    let grown = if t <= MAX_FUZZY_CHUNK / 2 { t * 2 } else { MAX_FUZZY_CHUNK };
                    if grown <= cap { grown } else { cap }
                },
                MemoryPressure::Normal => t,
            }
        },
    };
    if target < MIN_FUZZY_CHUNK {
        MIN_FUZZY_CHUNK
    } else if target > MAX_FUZZY_CHUNK {
        MAX_FUZZY_CHUNK
    } else {
        target
    }
}

/// Memory pressure never makes a batch larger, and plentiful memory never
/// makes it smaller, than the same reading would give otherwise.
pub proof fn lemma_chunk_follows_pressure(configured: int, bound: usize)
    ensures
        fuzzy_chunk_size_of(configured, Some(bound), MemoryPressure::High)
            <= fuzzy_chunk_size_of(configured, Some(bound), MemoryPressure::Normal),
        fuzzy_chunk_size_of(configured, Some(bound), MemoryPressure::Normal)
            <= fuzzy_chunk_size_of(configured, Some(bound), MemoryPressure::Relaxed),
{
}

} // verus!
