//! Timekeeping on the architectural counter: converting between ticks of
//! the counter and durations. Reading the counter is the caller's part.

use vstd::prelude::*;

verus! {

/// Nanoseconds in a second.
pub const NANOSEC_PER_SEC: u64 = 1_000_000_000;

/// A span of time: whole seconds and the nanoseconds beyond them.
#[derive(Clone, Copy, Debug, PartialEq, Eq, Structural)]
pub struct Duration {
    pub secs: u64,
    pub nanos: u32,
}

impl Duration {
    /// The span in nanoseconds.
    pub open spec fn spec_nanos(&self) -> int {
        self.secs * 1_000_000_000 + self.nanos
    }

    /// The nanoseconds beyond the seconds are less than a second.
    pub open spec fn wf(&self) -> bool {
        self.nanos < 1_000_000_000
    }

    /// The span in nanoseconds.
    pub fn as_nanos(&self) -> (r: u128)
        ensures
            r == self.spec_nanos(),
    {
        self.secs as u128 * 1_000_000_000u128 + self.nanos as u128
    }

    /// Whether this span is shorter than `other`.
    pub fn shorter_than(&self, other: &Duration) -> (r: bool)
        requires
            self.wf(),
            other.wf(),
        ensures
            r == (self.spec_nanos() < other.spec_nanos()),
    {
        self.secs < other.secs || (self.secs == other.secs && self.nanos < other.nanos)
    }
}

/// The span of `ticks` ticks of a counter that runs at `frequency` ticks a
/// second, rounded down to a nanosecond.
pub open spec fn spec_ticks_to_duration(ticks: u64, frequency: u64) -> Duration {
    Duration {
        secs: ticks / frequency,
        nanos: ((ticks % frequency) * 1_000_000_000 / (frequency as int)) as u32,
    }
}

/// The ticks of a counter that runs at `frequency` ticks a second in the
/// span `duration`, rounded down.
pub open spec fn spec_duration_to_ticks(duration: Duration, frequency: u64) -> int {
    duration.spec_nanos() * frequency / 1_000_000_000
}

/// What the kernel knows of its timer: the frequency of the counter, which
/// is not zero, and the value of the counter when the kernel started.
#[derive(Clone, Copy, Debug, PartialEq, Eq, Structural)]
pub struct KernelTimerData {
    arch_timer_counter_frequency: u64,
    kernel_boot_time: u64,
}

impl KernelTimerData {
    /// The frequency of the counter in ticks a second.
    pub closed spec fn spec_frequency(&self) -> u64 {
        self.arch_timer_counter_frequency
    }

    /// The value of the counter when the kernel started.
    pub closed spec fn spec_boot_time(&self) -> u64 {
        self.kernel_boot_time
    }

    /// The frequency is not zero.
    pub open spec fn wf(&self) -> bool {
        self.spec_frequency() != 0
    }

    /// The timer data for a counter of the given frequency, which must not
    /// be zero.
    pub fn new(arch_timer_counter_frequency: u64, kernel_boot_time: u64) -> (r: Self)
        requires
            arch_timer_counter_frequency != 0,
        ensures
            r.wf(),
            r.spec_frequency() == arch_timer_counter_frequency,
            r.spec_boot_time() == kernel_boot_time,
    {
        Self { arch_timer_counter_frequency, kernel_boot_time }
    }

    /// The span of `ticks` ticks of the counter.
    pub fn duration_of(&self, ticks: u64) -> (r: Duration)
        requires
            self.wf(),
        ensures
            r == spec_ticks_to_duration(ticks, self.spec_frequency()),
            r.wf(),
    {
        let frequency = self.arch_timer_counter_frequency;
        let secs = ticks / frequency;
        let subsec = ticks % frequency;
        assert(subsec * 1_000_000_000 / (frequency as int) < 1_000_000_000) by (nonlinear_arith)
            requires
                0 <= subsec < frequency,
        ;
        assert(subsec * 1_000_000_000 <= u128::MAX) by (nonlinear_arith)
            requires
                0 <= subsec <= u64::MAX,
        ;
        let nanos = (subsec as u128 * 1_000_000_000u128 / frequency as u128) as u32;
        Duration { secs, nanos }
    }

    /// The ticks of the counter in the span `value`, rounded down: 0 for a
    /// span shorter than one tick, an error for a span longer than the
    /// counter can count.
    pub fn ticks_of(&self, value: Duration) -> (r: Result<u64, &'static str>)
        requires
            self.wf(),
            value.wf(),
        ensures
            self.spec_ticks_of(value) is None <==> r is Err,
            r is Ok ==> Some(r.unwrap()) == self.spec_ticks_of(value),
    {
        if value.shorter_than(&resolution(self)) {
            return Ok(0);
        }
        if max_duration(self).shorter_than(&value) {
            return Err("duration too large");
        }
        let frequency = self.arch_timer_counter_frequency as u128;
        let duration = value.as_nanos();
        proof {
            let longest = spec_ticks_to_duration(u64::MAX, self.spec_frequency());
            let f = frequency as int;
            let d = duration as int;
            let whole = (u64::MAX as int) / f;
            assert(longest.spec_nanos() <= whole * 1_000_000_000 + 1_000_000_000);
            assert(whole * f <= u64::MAX) by (nonlinear_arith)
                requires
                    whole == (u64::MAX as int) / f,
                    f > 0,
            ;
            assert(d * f <= (whole * 1_000_000_000 + 1_000_000_000) * f) by (nonlinear_arith)
                requires
                    0 <= d <= whole * 1_000_000_000 + 1_000_000_000,
                    f > 0,
            ;
            assert((whole * 1_000_000_000 + 1_000_000_000) * f == (whole * f) * 1_000_000_000
                + 1_000_000_000 * f) by (nonlinear_arith);
            assert((whole * f) * 1_000_000_000 <= 0xffff_ffff_ffff_ffff * 1_000_000_000)
                by (nonlinear_arith)
                requires
                    whole * f <= 0xffff_ffff_ffff_ffff,
            ;
            assert(1_000_000_000 * f <= 1_000_000_000 * 0xffff_ffff_ffff_ffff)
                by (nonlinear_arith)
                requires
                    f <= 0xffff_ffff_ffff_ffff,
            ;
        }
        let counter_value = duration * frequency / (NANOSEC_PER_SEC as u128);
        Ok((counter_value % 0x1_0000_0000_0000_0000u128) as u64)
    }
}

/// The longest span that the counter can count.
pub fn max_duration(data: &KernelTimerData) -> (r: Duration)
    requires
        data.wf(),
    ensures
        r == spec_ticks_to_duration(u64::MAX, data.spec_frequency()),
        r.wf(),
{
    data.duration_of(u64::MAX)
}

/// The span of one tick of the counter.
pub fn resolution(data: &KernelTimerData) -> (r: Duration)
    requires
        data.wf(),
    ensures
        r == spec_ticks_to_duration(1, data.spec_frequency()),
        r.wf(),
{
    data.duration_of(1)
}

/// The time since the counter started, when the counter reads `now`.
pub fn uptime_sys(data: &KernelTimerData, now: u64) -> (r: Duration)
    requires
        data.wf(),
    ensures
        r == spec_ticks_to_duration(now, data.spec_frequency()),
{
    data.duration_of(now)
}

/// The time since the kernel started, when the counter reads `now`. The
/// counter may have wrapped since.
pub fn uptime_kernel(data: &KernelTimerData, now: u64) -> (r: Duration)
    requires
        data.wf(),
    ensures
        r == spec_ticks_to_duration(
            ((now - data.spec_boot_time()) % 0x1_0000_0000_0000_0000) as u64,
            data.spec_frequency(),
        ),
{
    data.duration_of(now.wrapping_sub(data.kernel_boot_time))
}

/// The value of the counter at which a wait of `duration` that starts when
/// the counter reads `start` is over; `None` for a span longer than the
/// counter can count. The sum wraps with the counter.
pub fn spin_for(data: &KernelTimerData, start: u64, duration: Duration) -> (r: Option<u64>)
    requires
        data.wf(),
        duration.wf(),
    ensures
        r == match data.spec_ticks_of(duration) {
            Some(delta) => Some(((start + delta) % 0x1_0000_0000_0000_0000) as u64),
            None => None,
        },
{
    match data.ticks_of(duration) {
        Ok(delta) => Some(start.wrapping_add(delta)),
        Err(_) => None,
    }
}

impl KernelTimerData {
    /// The ticks of the counter in the span `value`: 0 for a span shorter
    /// than one tick, nothing for a span longer than the counter can count,
    /// else the span times the frequency, rounded down to a tick, as far as
    /// a machine word holds it.
    pub open spec fn spec_ticks_of(&self, value: Duration) -> Option<u64> {
        if value.spec_nanos() < spec_ticks_to_duration(1, self.spec_frequency()).spec_nanos() {
            Some(0)
        } else if value.spec_nanos() > spec_ticks_to_duration(
            u64::MAX,
            self.spec_frequency(),
        ).spec_nanos() {
            None
        } else {
            Some(
                (spec_duration_to_ticks(value, self.spec_frequency())
                    % 0x1_0000_0000_0000_0000) as u64,
            )
        }
    }
}

/// The kernel's clock: the timer data, and the conversions on it.
pub struct TimeManager {
    data: KernelTimerData,
}

impl TimeManager {
    /// The timer data of the clock.
    pub closed spec fn view(&self) -> KernelTimerData {
        self.data
    }

    /// The clock on the given timer data.
    pub fn new(data: KernelTimerData) -> (r: Self)
        ensures
            r@ == data,
    {
        Self { data }
    }

    /// The span of one tick of the counter.
    pub fn resolution(&self) -> (r: Duration)
        requires
            self@.wf(),
        ensures
            r == spec_ticks_to_duration(1, self@.spec_frequency()),
    {
        resolution(&self.data)
    }

    /// The time since the counter started, when the counter reads `now`.
    pub fn uptime_sys(&self, now: u64) -> (r: Duration)
        requires
            self@.wf(),
        ensures
            r == spec_ticks_to_duration(now, self@.spec_frequency()),
    {
        uptime_sys(&self.data, now)
    }

    /// The time since the kernel started, when the counter reads `now`.
    pub fn uptime_kernel(&self, now: u64) -> (r: Duration)
        requires
            self@.wf(),
        ensures
            r == spec_ticks_to_duration(
                ((now - self@.spec_boot_time()) % 0x1_0000_0000_0000_0000) as u64,
                self@.spec_frequency(),
            ),
    {
        uptime_kernel(&self.data, now)
    }

    /// The value of the counter at which a wait of `duration` that starts
    /// when the counter reads `start` is over; `None` for a span longer
    /// than the counter can count.
    pub fn spin_for(&self, start: u64, duration: Duration) -> (r: Option<u64>)
        requires
            self@.wf(),
            duration.wf(),
        ensures
            r == match self@.spec_ticks_of(duration) {
                Some(delta) => Some(((start + delta) % 0x1_0000_0000_0000_0000) as u64),
                None => None,
            },
    {
        spin_for(&self.data, start, duration)
    }
}

} // verus!
