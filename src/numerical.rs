use vstd::prelude::*;
use vstd::string::*;

use crate::address::{number_value, parse_number};
use crate::measurement::{topic_of, unit_of, Metric, PublishableMessage};

verus! {

/// Period of the on-board temperature timer, in milliseconds.
pub const CPU_TEMP_PERIOD_MS: u64 = 2000;

/// Period of the process-table timer, which yields both CPU usages.
pub const CPU_USAGE_PERIOD_MS: u64 = 300;

/// Period of the free-memory timer.
pub const MEM_AVAILABLE_PERIOD_MS: u64 = 1000;

/// The process tracked when the PID file cannot be used.
pub const FALLBACK_PID: u32 = 1;

/// One of the sampler's independent timers.
#[derive(Clone, Copy, PartialEq, Eq, Structural, Debug)]
pub enum Tick {
    CpuTemp,
    CpuUsage,
    MemAvailable,
}

pub open spec fn period_of(t: Tick) -> u64 {
    match t {
        Tick::CpuTemp => CPU_TEMP_PERIOD_MS,
        Tick::CpuUsage => CPU_USAGE_PERIOD_MS,
        Tick::MemAvailable => MEM_AVAILABLE_PERIOD_MS,
    }
}

/// When each timer next fires, in milliseconds since the sampler started.
/// A timer's first tick comes one period after the start.
pub struct Schedule {
    temp_due: u64,
    cpu_due: u64,
    mem_due: u64,
}

impl Schedule {
    pub closed spec fn due(&self, t: Tick) -> u64 {
        match t {
            Tick::CpuTemp => self.temp_due,
            Tick::CpuUsage => self.cpu_due,
            Tick::MemAvailable => self.mem_due,
        }
    }

    /// Every timer due one period after the start.
    pub fn new() -> (r: Schedule)
        ensures
            forall|t: Tick| #[trigger] r.due(t) == period_of(t),
    {
        Schedule {
            temp_due: CPU_TEMP_PERIOD_MS,
            cpu_due: CPU_USAGE_PERIOD_MS,
            mem_due: MEM_AVAILABLE_PERIOD_MS,
        }
    }

    /// The timer that fires first, and when; of timers due together, the
    /// temperature comes first, then CPU usage, then memory.
    pub fn next(&self) -> (r: (Tick, u64))
        ensures
            r.1 == self.due(r.0),
            (r.0 == Tick::CpuTemp) == (self.due(Tick::CpuTemp) <= self.due(Tick::CpuUsage)
                && self.due(Tick::CpuTemp) <= self.due(Tick::MemAvailable)),
            r.0 == Tick::MemAvailable ==> self.due(Tick::MemAvailable) < self.due(Tick::CpuTemp)
                && self.due(Tick::MemAvailable) < self.due(Tick::CpuUsage),
            forall|t: Tick| r.1 <= #[trigger] self.due(t),
    {
        if self.temp_due <= self.cpu_due && self.temp_due <= self.mem_due {
            (Tick::CpuTemp, self.temp_due)
        } else if self.cpu_due <= self.mem_due {
            (Tick::CpuUsage, self.cpu_due)
        } else {
            (Tick::MemAvailable, self.mem_due)
        }
    }

    /// Whether moving `t` on by a period stays within the clock's range.
    pub fn can_advance(&self, t: Tick) -> (r: bool)
        ensures
            r == (self.due(t) + period_of(t) <= u64::MAX),
    {
        match t {
            Tick::CpuTemp => self.temp_due <= u64::MAX - CPU_TEMP_PERIOD_MS,
            Tick::CpuUsage => self.cpu_due <= u64::MAX - CPU_USAGE_PERIOD_MS,
            Tick::MemAvailable => self.mem_due <= u64::MAX - MEM_AVAILABLE_PERIOD_MS,
        }
    }

    /// After `t` has fired: it is next due one period later; the others keep their time.
    pub fn advance(&mut self, t: Tick)
        requires
            old(self).due(t) + period_of(t) <= u64::MAX,
        ensures
            final(self).due(t) == old(self).due(t) + period_of(t),
            forall|o: Tick| o != t ==> #[trigger] final(self).due(o) == old(self).due(o),
    {
        match t {
            Tick::CpuTemp => self.temp_due = self.temp_due + CPU_TEMP_PERIOD_MS,
            Tick::CpuUsage => self.cpu_due = self.cpu_due + CPU_USAGE_PERIOD_MS,
            Tick::MemAvailable => self.mem_due = self.mem_due + MEM_AVAILABLE_PERIOD_MS,
        }
    }
}

/// What one tick read, as the bits of 32-bit floats.
pub enum Reading {
    /// The on-board temperature, or `None` where the sensor is absent.
    Temperature(Option<u32>),
    /// Aggregate CPU usage, then the tracked process's CPU usage.
    CpuUsage(u32, u32),
    /// Free memory in megabytes.
    MemAvailable(u32),
}

/// `m` is the measurement of `metric` with the one reading `bits`.
pub open spec fn is_reading(m: PublishableMessage, metric: Metric, bits: u32) -> bool {
    m.topic@ == topic_of(metric) && m.unit@ == unit_of(metric) && m.data@ == seq![bits]
}

/// The measurements a tick's reading yields, in the order they are sent:
/// none for an absent sensor, two for the process table, one otherwise.
pub fn tick_messages(reading: Reading) -> (r: Vec<PublishableMessage>)
    ensures
        match reading {
            Reading::Temperature(None) => r@.len() == 0,
            Reading::Temperature(Some(t)) => r@.len() == 1 && is_reading(r@[0], Metric::CpuTemp, t),
            Reading::CpuUsage(global, broker) => r@.len() == 2 && is_reading(
                r@[0],
                Metric::CpuUsage,
                global,
            ) && is_reading(r@[1], Metric::BrokerCpuUsage, broker),
            Reading::MemAvailable(mb) => r@.len() == 1 && is_reading(
                r@[0],
                Metric::MemAvailable,
                mb,
            ),
        },
{
    let mut out: Vec<PublishableMessage> = Vec::new();
    match reading {
        Reading::Temperature(None) => {},
        Reading::Temperature(Some(t)) => {
            out.push(PublishableMessage::reading(Metric::CpuTemp, t));
        },
        Reading::CpuUsage(global, broker) => {
            out.push(PublishableMessage::reading(Metric::CpuUsage, global));
            out.push(PublishableMessage::reading(Metric::BrokerCpuUsage, broker));
        },
        Reading::MemAvailable(mb) => {
            out.push(PublishableMessage::reading(Metric::MemAvailable, mb));
        },
    }
    out
}

/// The text of a PID file without one trailing newline.
pub open spec fn pid_text(s: Seq<char>) -> Seq<char> {
    if s.len() > 0 && s.last() == '\n' {
        s.drop_last()
    } else {
        s
    }
}

/// The PID named by a PID file's contents, or `None` where they name none.
pub open spec fn pid_of(contents: Option<Seq<char>>) -> Option<u32> {
    match contents {
        None => None,
        Some(s) => match number_value(pid_text(s), u32::MAX as nat) {
            Some(v) => Some(v as u32),
            None => None,
        },
    }
}

/// The process to track, from the PID file's contents (`None` where the file
/// could not be read), and whether the fallback PID was taken instead.
pub fn pid_from_file(contents: Option<&str>) -> (r: (u32, bool))
    ensures
        match pid_of(
            match contents {
                Some(s) => Some(s@),
                None => None,
            },
        ) {
            Some(p) => r == (p, false),
            None => r == (FALLBACK_PID, true),
        },
{
    let s = match contents {
        None => return (FALLBACK_PID, true),
        Some(s) => s,
    };
    let len = s.unicode_len();
    let text = if len > 0 && s.get_char(len - 1) == '\n' {
        s.substring_char(0, len - 1)
    } else {
        s.substring_char(0, len)
    };
    assert(text@ =~= pid_text(s@));
    assert(text@.skip(0) =~= text@);
    match parse_number(text, 0, u32::MAX) {
        Some(p) => (p, false),
        None => (FALLBACK_PID, true),
    }
}

} // verus!
