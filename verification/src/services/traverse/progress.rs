//! Progress reporting primitives for traversal strategies.
//!
//! Times are readings of a monotonic clock in nanoseconds, taken from an
//! origin that the caller keeps fixed for the whole scan.

use vstd::prelude::*;

use crate::models::ProgressSnapshot;

verus! {

/// Default time-based interval used when no override is supplied: two seconds.
pub const DEFAULT_INTERVAL_NS: u64 = 2_000_000_000;

/// Default byte delta that forces a progress update.
pub const DEFAULT_BYTE_TRIGGER: u64 = 1_000_000;

/// Minimum interval enforced to avoid busy emissions: 100 ms.
pub const MIN_INTERVAL_NS: u64 = 100_000_000;

/// Lower bound for byte-triggered emissions: 64 KiB.
pub const MIN_BYTE_TRIGGER: u64 = 65_536;

/// Nanoseconds in a second.
pub const NANOS_PER_SEC: u64 = 1_000_000_000;

/// What a throttler remembers.
pub struct ThrottlerState {
    /// Minimum time between emissions.
    pub interval_ns: u64,
    /// Byte delta that allows an early emission; `u64::MAX` disables it.
    pub byte_trigger: u64,
    /// Clock reading of the last emission, or of the arming call.
    pub last_emit: Option<u64>,
    /// Byte counter at that reading.
    pub last_emit_bytes: u64,
}

impl ThrottlerState {
    /// Both parameters respect their floors.
    pub open spec fn valid(self) -> bool {
        self.interval_ns >= MIN_INTERVAL_NS && self.byte_trigger >= MIN_BYTE_TRIGGER
    }
}

/// `a - b`, or zero where `b` exceeds `a`.
pub open spec fn sat_sub(a: u64, b: u64) -> u64 {
    if a >= b {
        (a - b) as u64
    } else {
        0
    }
}

/// `interval` raised to the floor of 100 ms.
pub open spec fn floor_interval(interval_ns: u64) -> u64 {
    if interval_ns < MIN_INTERVAL_NS {
        MIN_INTERVAL_NS
    } else {
        interval_ns
    }
}

/// `byte_trigger` raised to the floor of 64 KiB.
pub open spec fn floor_trigger(byte_trigger: u64) -> u64 {
    if byte_trigger < MIN_BYTE_TRIGGER {
        MIN_BYTE_TRIGGER
    } else {
        byte_trigger
    }
}

/// Bytes per second over an elapsed time; undefined over no time at all.
pub open spec fn throughput(bytes_delta: u64, elapsed_ns: u64) -> Option<u64> {
    if elapsed_ns == 0 {
        None
    } else {
        let rate = (bytes_delta as int * NANOS_PER_SEC as int) / (elapsed_ns as int);
        if rate > u64::MAX as int {
            Some(u64::MAX)
        } else {
            Some(rate as u64)
        }
    }
}

/// Whether a call of `consider` at `now_ns` with `bytes` processed emits.
pub open spec fn emits(state: ThrottlerState, now_ns: u64, bytes: u64) -> bool {
    match state.last_emit {
        None => false,
        Some(last) => {
            let elapsed = sat_sub(now_ns, last);
            let delta = sat_sub(bytes, state.last_emit_bytes);
            elapsed >= state.interval_ns || (state.byte_trigger != u64::MAX && elapsed
                >= state.interval_ns / 2 && delta >= state.byte_trigger)
        },
    }
}

/// The state after a call of `consider`.
pub open spec fn after_consider(state: ThrottlerState, now_ns: u64, bytes: u64) -> ThrottlerState {
    if state.last_emit is None || emits(state, now_ns, bytes) {
        ThrottlerState { last_emit: Some(now_ns), last_emit_bytes: bytes, ..state }
    } else {
        state
    }
}

/// The throughput that a throttler reports at `now_ns` with `bytes` processed.
pub open spec fn estimated_throughput(state: ThrottlerState, now_ns: u64, bytes: u64) -> Option<
    u64,
> {
    match state.last_emit {
        None => None,
        Some(last) => throughput(sat_sub(bytes, state.last_emit_bytes), sat_sub(now_ns, last)),
    }
}

/// Time/byte-based throttler governing progress event emission.
#[derive(Debug)]
pub struct ProgressThrottler {
    interval_ns: u64,
    byte_trigger: u64,
    last_emit: Option<u64>,
    last_emit_bytes: u64,
}

impl View for ProgressThrottler {
    type V = ThrottlerState;

    closed spec fn view(&self) -> ThrottlerState {
        ThrottlerState {
            interval_ns: self.interval_ns,
            byte_trigger: self.byte_trigger,
            last_emit: self.last_emit,
            last_emit_bytes: self.last_emit_bytes,
        }
    }
}

impl Default for ProgressThrottler {
    fn default() -> (throttler: Self)
        ensures
            throttler@ == (ThrottlerState {
                interval_ns: DEFAULT_INTERVAL_NS,
                byte_trigger: DEFAULT_BYTE_TRIGGER,
                last_emit: None,
                last_emit_bytes: 0,
            }),
    {
        Self::new()
    }
}

impl ProgressThrottler {
    /// Construct a throttler using the default interval of two seconds.
    #[must_use]
    pub fn new() -> (throttler: Self)
        ensures
            throttler@ == (ThrottlerState {
                interval_ns: DEFAULT_INTERVAL_NS,
                byte_trigger: DEFAULT_BYTE_TRIGGER,
                last_emit: None,
                last_emit_bytes: 0,
            }),
    {
        Self::with_interval(DEFAULT_INTERVAL_NS)
    }

    /// Construct a throttler with the supplied minimum interval.
    #[must_use]
    pub fn with_interval(interval_ns: u64) -> (throttler: Self)
        ensures
            throttler@ == (ThrottlerState {
                interval_ns: floor_interval(interval_ns),
                byte_trigger: DEFAULT_BYTE_TRIGGER,
                last_emit: None,
                last_emit_bytes: 0,
            }),
    {
        Self::with_interval_and_trigger(interval_ns, DEFAULT_BYTE_TRIGGER)
    }

    /// Construct a throttler with explicit parameters.
    #[must_use]
    pub fn with_interval_and_trigger(interval_ns: u64, byte_trigger: u64) -> (throttler: Self)
        ensures
            throttler@ == (ThrottlerState {
                interval_ns: floor_interval(interval_ns),
                byte_trigger: floor_trigger(byte_trigger),
                last_emit: None,
                last_emit_bytes: 0,
            }),
    {
        Self {
            interval_ns: if interval_ns < MIN_INTERVAL_NS {
                MIN_INTERVAL_NS
            } else {
                interval_ns
            },
            byte_trigger: if byte_trigger < MIN_BYTE_TRIGGER {
                MIN_BYTE_TRIGGER
            } else {
                byte_trigger
            },
            last_emit: None,
            last_emit_bytes: 0,
        }
    }

    /// Update the throttling parameters while preserving prior emission state.
    pub fn set_interval(&mut self, interval_ns: u64, byte_trigger: u64)
        ensures
            final(self)@ == (ThrottlerState {
                interval_ns: floor_interval(interval_ns),
                byte_trigger: floor_trigger(byte_trigger),
                ..old(self)@
            }),
    {
        self.interval_ns = if interval_ns < MIN_INTERVAL_NS {
            MIN_INTERVAL_NS
        } else {
            interval_ns
        };
        self.byte_trigger = if byte_trigger < MIN_BYTE_TRIGGER {
            MIN_BYTE_TRIGGER
        } else {
            byte_trigger
        };
    }

    /// Consider emitting a snapshot using the current traversal counters.
    ///
    /// The first call arms the timer and emits nothing. A later call emits
    /// when the interval has passed, or when half of it has passed and the
    /// byte trigger is enabled and met.
    pub fn consider(
        &mut self,
        now_ns: u64,
        processed_bytes: u64,
        processed_entries: u64,
        timestamp_ms: u64,
    ) -> (snapshot: Option<ProgressSnapshot>)
        ensures
            final(self)@ == after_consider(old(self)@, now_ns, processed_bytes),
            snapshot is Some <==> emits(old(self)@, now_ns, processed_bytes),
            snapshot matches Some(s) ==> s == (ProgressSnapshot {
                timestamp_ms,
                processed_entries,
                processed_bytes,
                estimated_completion_percent: None,
                recent_throughput_bytes_per_sec: estimated_throughput(
                    old(self)@,
                    now_ns,
                    processed_bytes,
                ),
            }),
    {
        let last_emit = match self.last_emit {
            None => {
                self.last_emit = Some(now_ns);
                self.last_emit_bytes = processed_bytes;
                return None;
            },
            Some(last) => last,
        };
        let elapsed = now_ns.saturating_sub(last_emit);
        let bytes_delta = processed_bytes.saturating_sub(self.last_emit_bytes);

        let time_ready = elapsed >= self.interval_ns;
        let byte_gate = self.interval_ns / 2;
        let bytes_ready = self.byte_trigger != u64::MAX && elapsed >= byte_gate && bytes_delta
            >= self.byte_trigger;

        if time_ready || bytes_ready {
            let rate = compute_throughput(bytes_delta, elapsed);

            self.last_emit = Some(now_ns);
            self.last_emit_bytes = processed_bytes;

            return Some(
                ProgressSnapshot {
                    timestamp_ms,
                    processed_entries,
                    processed_bytes,
                    estimated_completion_percent: None,
                    recent_throughput_bytes_per_sec: rate,
                },
            );
        }
        None
    }

    /// Emit a final snapshot regardless of thresholds. This is the only
    /// path that marks completion.
    pub fn force_emit(
        &mut self,
        now_ns: u64,
        processed_bytes: u64,
        processed_entries: u64,
        timestamp_ms: u64,
    ) -> (snapshot: Option<ProgressSnapshot>)
        ensures
            final(self)@ == (ThrottlerState {
                last_emit: Some(now_ns),
                last_emit_bytes: processed_bytes,
                ..old(self)@
            }),
            snapshot == Some(
                ProgressSnapshot {
                    timestamp_ms,
                    processed_entries,
                    processed_bytes,
                    estimated_completion_percent: Some(100u8),
                    recent_throughput_bytes_per_sec: estimated_throughput(
                        old(self)@,
                        now_ns,
                        processed_bytes,
                    ),
                },
            ),
    {
        let rate = self.estimate_throughput(now_ns, processed_bytes);

        self.last_emit = Some(now_ns);
        self.last_emit_bytes = processed_bytes;

        Some(
            ProgressSnapshot {
                timestamp_ms,
                processed_entries,
                processed_bytes,
                estimated_completion_percent: Some(100),
                recent_throughput_bytes_per_sec: rate,
            },
        )
    }

    /// Throughput since the last emission, if there was one and time passed.
    pub fn estimate_throughput(&self, now_ns: u64, processed_bytes: u64) -> (rate: Option<u64>)
        ensures
            rate == estimated_throughput(self@, now_ns, processed_bytes),
    {
        match self.last_emit {
            None => None,
            Some(last_emit) => {
                let elapsed = now_ns.saturating_sub(last_emit);
                let bytes_delta = processed_bytes.saturating_sub(self.last_emit_bytes);
                compute_throughput(bytes_delta, elapsed)
            },
        }
    }
}

/// Bytes per second for `bytes_delta` bytes over `elapsed_ns` nanoseconds,
/// capped at `u64::MAX`; nothing over zero time.
pub fn compute_throughput(bytes_delta: u64, elapsed_ns: u64) -> (rate: Option<u64>)
    ensures
        rate == throughput(bytes_delta, elapsed_ns),
{
    if elapsed_ns == 0 {
        return None;
    }
    assert(bytes_delta as int * NANOS_PER_SEC as int <= u64::MAX as int * NANOS_PER_SEC as int)
        by (nonlinear_arith)
        requires
            bytes_delta <= u64::MAX,
    ;
    let numerator: u128 = (bytes_delta as u128) * 1_000_000_000u128;
    let rate: u128 = numerator / (elapsed_ns as u128);
    if rate > u64::MAX as u128 {
        Some(u64::MAX)
    } else {
        Some(rate as u64)
    }
}

/// The least time between two emissions of a throttler: the interval where
/// the byte trigger is disabled, else half of it.
pub open spec fn least_gap_ns(state: ThrottlerState) -> u64 {
    if state.byte_trigger == u64::MAX {
        state.interval_ns
    } else {
        state.interval_ns / 2
    }
}

/// Two emissions of one throttler are at least half an interval apart, and
/// a full interval where the byte trigger is disabled.
pub proof fn lemma_emissions_are_spaced(state: ThrottlerState, now_ns: u64, bytes: u64)
    requires
        state.valid(),
        emits(state, now_ns, bytes),
    ensures
        state.last_emit is Some,
        now_ns - state.last_emit->0 >= state.interval_ns / 2,
        state.byte_trigger == u64::MAX ==> now_ns - state.last_emit->0 >= state.interval_ns,
        now_ns - state.last_emit->0 >= least_gap_ns(state),
        now_ns > state.last_emit->0,
{
}

} // verus!
