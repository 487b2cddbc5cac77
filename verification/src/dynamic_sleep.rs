//! A timer that tries to keep a loop running at a given frequency.
//!
//! The timer reads no clock and does not sleep. Once per cycle the caller
//! tells it how much time has passed since the last call, and is told how
//! long to sleep.

use vstd::prelude::*;

verus! {

/// Nanoseconds in one second.
pub const NANOS_PER_SECOND: u32 = 1_000_000_000;

/// The frequency of a timer made by `DynamicSleep::new`, in Hz.
pub const DEFAULT_FREQ_HZ: u32 = 30;

/// Length in nanoseconds of one period of a loop that runs `freq` times a
/// second, rounded down.
pub open spec fn period_of(freq: u32) -> u32 {
    (NANOS_PER_SECOND as int / freq as int) as u32
}

/// Convert a frequency in Hz to the period in nanoseconds.
pub fn hz_to_nanos(freq: u32) -> (nanos: u32)
    requires
        freq > 0,
    ensures
        nanos == period_of(freq),
        nanos as int == NANOS_PER_SECOND as int / freq as int,
{
    NANOS_PER_SECOND / freq
}

/// What the loop should do before its next cycle.
#[derive(Debug, PartialEq, Eq, Structural)]
pub enum Pause {
    /// The first call: there is no last cycle to measure from.
    First,
    /// The last cycle took longer than a period: go on at once.
    Slipped,
    /// Sleep for `nanos` nanoseconds. `report` holds the number of slips to
    /// log, where a second's worth of cycles has passed and some slipped.
    Wait { nanos: u32, report: Option<u32> },
}

/// The state of a timer.
pub struct SleepView {
    /// Update frequency in Hz.
    pub freq: u32,
    /// Period in nanoseconds.
    pub period_nanos: u32,
    /// Whether the first call has been made.
    pub running: bool,
    /// How many cycles were counted since the last report.
    pub cycles: u32,
    /// How many of them slipped.
    pub slips: u32,
}

impl SleepView {
    /// Whether the last cycle, which took `secs` seconds and `subsec_nanos`
    /// nanoseconds, overran the period.
    pub open spec fn overran(self, secs: u64, subsec_nanos: u32) -> bool {
        secs > 0 || subsec_nanos > self.period_nanos
    }

    /// Whether the cycle now counted completes a second with slips.
    pub open spec fn reports(self) -> bool {
        self.cycles + 1 == self.freq && self.slips > 0
    }

    /// What the loop is told, given the time since the last call.
    pub open spec fn pause(self, secs: u64, subsec_nanos: u32) -> Pause {
        if !self.running {
            Pause::First
        } else if self.overran(secs, subsec_nanos) {
            Pause::Slipped
        } else {
            Pause::Wait {
                nanos: (self.period_nanos - subsec_nanos) as u32,
                report: if self.reports() {
                    Some(self.slips)
                } else {
                    None
                },
            }
        }
    }

    /// The state after the call.
    pub open spec fn next(self, secs: u64, subsec_nanos: u32) -> SleepView {
        if !self.running {
            SleepView { running: true, ..self }
        } else if self.overran(secs, subsec_nanos) {
            SleepView { cycles: (self.cycles + 1) as u32, slips: (self.slips + 1) as u32, ..self }
        } else if self.reports() {
            SleepView { cycles: 0, slips: 0, ..self }
        } else {
            SleepView { cycles: (self.cycles + 1) as u32, ..self }
        }
    }
}

/// Dynamic Sleep: lets a loop run with the specified frequency as well as
/// it can.
pub struct DynamicSleep {
    /// Tag, used for logging.
    tag: String,
    /// Update frequency in Hz.
    _freq: u32,
    /// Period in nanoseconds.
    _period_nanos: u32,
    /// Whether the first call has been made.
    running: bool,
    /// How many cycles.
    cycles: u32,
    /// How many slips.
    slips: u32,
}

impl View for DynamicSleep {
    type V = SleepView;

    closed spec fn view(&self) -> SleepView {
        SleepView {
            freq: self._freq,
            period_nanos: self._period_nanos,
            running: self.running,
            cycles: self.cycles,
            slips: self.slips,
        }
    }
}

impl DynamicSleep {
    /// The tag given when the timer was made.
    pub closed spec fn spec_tag(&self) -> String {
        self.tag
    }

    /// No more slips than cycles were counted.
    pub open spec fn wf(&self) -> bool {
        self@.slips <= self@.cycles
    }

    /// Create a new instance with default frequency of 30hz. The tag marks
    /// what the caller logs.
    pub fn new<S>(tag: S) -> (timer: DynamicSleep) where S: Into<String>
        ensures
            timer.wf(),
            timer@ == (SleepView {
                freq: DEFAULT_FREQ_HZ,
                period_nanos: period_of(DEFAULT_FREQ_HZ),
                running: false,
                cycles: 0,
                slips: 0,
            }),
            call_ensures(S::into, (tag,), timer.spec_tag()),
    {
        let hz = DEFAULT_FREQ_HZ;
        DynamicSleep {
            tag: tag.into(),
            _freq: hz,
            _period_nanos: hz_to_nanos(hz),
            running: false,
            cycles: 0,
            slips: 0,
        }
    }

    /// Create a new instance with a custom frequency. The tag marks what
    /// the caller logs.
    pub fn with_freq<S>(tag: S, freq_in_hz: u32) -> (timer: DynamicSleep) where S: Into<String>
        requires
            freq_in_hz > 0,
        ensures
            timer.wf(),
            timer@ == (SleepView {
                freq: freq_in_hz,
                period_nanos: period_of(freq_in_hz),
                running: false,
                cycles: 0,
                slips: 0,
            }),
            call_ensures(S::into, (tag,), timer.spec_tag()),
    {
        DynamicSleep {
            tag: tag.into(),
            _freq: freq_in_hz,
            _period_nanos: hz_to_nanos(freq_in_hz),
            running: false,
            cycles: 0,
            slips: 0,
        }
    }

    /// The tag, for logging.
    pub fn tag(&self) -> (tag: &String)
        ensures
            *tag == self.spec_tag(),
    {
        &self.tag
    }

    /// Get the freq.
    pub fn freq_hz(&self) -> (freq: u32)
        ensures
            freq == self@.freq,
    {
        self._freq
    }

    /// Get frequency period in nanos.
    pub fn period_nanos(&self) -> (nanos: u32)
        ensures
            nanos == self@.period_nanos,
    {
        self._period_nanos
    }

    /// How many cycles were counted since the last report.
    pub fn cycles(&self) -> (cycles: u32)
        ensures
            cycles == self@.cycles,
    {
        self.cycles
    }

    /// How many of the counted cycles slipped.
    pub fn slips(&self) -> (slips: u32)
        ensures
            slips == self@.slips,
    {
        self.slips
    }

    /// When called once per cycle of a loop, with the time that has passed
    /// since the last call (`secs` whole seconds and `subsec_nanos`
    /// nanoseconds), says how long to sleep so that the loop runs at the
    /// given frequency. The first call only starts the measuring.
    ///
    /// Cycles are counted in a `u32`: the count, which `cycles` gives, must
    /// be below `u32::MAX`.
    pub fn sleep(&mut self, secs: u64, subsec_nanos: u32) -> (pause: Pause)
        requires
            old(self).wf(),
            old(self)@.cycles < u32::MAX,
        ensures
            final(self).wf(),
            pause == old(self)@.pause(secs, subsec_nanos),
            final(self)@ == old(self)@.next(secs, subsec_nanos),
            final(self).spec_tag() == old(self).spec_tag(),
    {
        if !self.running {
            self.running = true;
            return Pause::First;
        }
        self.cycles += 1;
        if secs > 0 || subsec_nanos > self._period_nanos {
            self.slips += 1;
            return Pause::Slipped;
        }
        let nanos = self._period_nanos - subsec_nanos;
        let mut report: Option<u32> = None;
        if self.cycles == self._freq && self.slips > 0 {
            // If we have had slippage within the last second (approx),
            // the caller logs it
            report = Some(self.slips);
            self.slips = 0;
            self.cycles = 0;
        }
        Pause::Wait { nanos, report }
    }
}

} // verus!
