//! Log levels are fatal, error, warning, info and debug.
//!
//! Emergency, alert and critical events are coalesced into fatal; notice and
//! informational events into info. There is no "off" level: the least verbose
//! level is fatal. Each level keeps the syslog priority of its class, so a
//! numerically smaller priority is the more severe one.

use std::cmp::Ordering;
use vstd::prelude::*;

verus! {

/// Severity of a log event.
#[derive(Copy, Clone, Debug, Eq, Hash, PartialEq, Structural)]
pub enum LogLevel {
    /// emergency, alert, critical
    Fatal,
    /// error
    Error,
    /// warnings
    Warning,
    /// notice, informational
    Info,
    /// debug, developer oriented messages
    Debug,
}

/// The levels of the `slog` crate, by name. `slog` numbers them from 1, for
/// critical, to 6, for trace.
#[derive(Copy, Clone, Debug, Eq, Hash, PartialEq, Structural)]
pub enum SlogLevel {
    Critical,
    Error,
    Warning,
    Info,
    Debug,
    Trace,
}

impl SlogLevel {
    /// The number that `slog` gives the level: 1 for critical, up to 6 for
    /// trace.
    pub open spec fn index(self) -> usize {
        match self {
            SlogLevel::Critical => 1,
            SlogLevel::Error => 2,
            SlogLevel::Warning => 3,
            SlogLevel::Info => 4,
            SlogLevel::Debug => 5,
            SlogLevel::Trace => 6,
        }
    }

    pub fn as_usize(self) -> (n: usize)
        ensures
            n == self.index(),
            1 <= n <= 6,
    {
        match self {
            SlogLevel::Critical => 1,
            SlogLevel::Error => 2,
            SlogLevel::Warning => 3,
            SlogLevel::Info => 4,
            SlogLevel::Debug => 5,
            SlogLevel::Trace => 6,
        }
    }
}

impl LogLevel {
    /// The syslog priority of this level.
    pub open spec fn priority(self) -> u8 {
        match self {
            LogLevel::Fatal => 0,
            LogLevel::Error => 3,
            LogLevel::Warning => 4,
            LogLevel::Info => 5,
            LogLevel::Debug => 7,
        }
    }

    /// How `self` compares to `other` by severity: the level with the smaller
    /// syslog priority is the greater one.
    pub open spec fn severity_order(self, other: Self) -> Ordering {
        if self.priority() == other.priority() {
            Ordering::Equal
        } else if self.priority() > other.priority() {
            Ordering::Less
        } else {
            Ordering::Greater
        }
    }

    pub fn get_priority(self) -> (p: u8)
        ensures
            p == self.priority(),
    {
        match self {
            LogLevel::Fatal => 0,
            LogLevel::Error => 3,
            LogLevel::Warning => 4,
            LogLevel::Info => 5,
            LogLevel::Debug => 7,
        }
    }

    /// Compares by severity, which inverts the numeric order of the priorities:
    /// fatal is the greatest level and debug the least.
    pub fn cmp(&self, other: &Self) -> (o: Ordering)
        ensures
            o == self.severity_order(*other),
    {
        let x: u8 = self.get_priority();
        let y: u8 = other.get_priority();
        if x == y {
            return Ordering::Equal;
        }
        if x > y {
            return Ordering::Less;
        }
        Ordering::Greater
    }

    /// The more severe of the two levels; `other` when they are equal.
    pub fn max(self, other: Self) -> (m: Self)
        ensures
            m == if self.priority() < other.priority() { self } else { other },
            m.priority() <= self.priority(),
            m.priority() <= other.priority(),
    {
        let x: u8 = self.get_priority();
        let y: u8 = other.get_priority();
        if x == y {
            return other;
        }
        if x > y {
            return other;
        }
        self
    }

    /// The less severe of the two levels; `self` when they are equal.
    pub fn min(self, other: Self) -> (m: Self)
        ensures
            m == if self.priority() >= other.priority() { self } else { other },
            m.priority() >= self.priority(),
            m.priority() >= other.priority(),
    {
        let x: u8 = self.get_priority();
        let y: u8 = other.get_priority();
        if x == y {
            return self;
        }
        if x > y {
            return self;
        }
        other
    }

    /// The `slog` level under which events of this level are logged.
    pub open spec fn slog_level(self) -> SlogLevel {
        match self {
            LogLevel::Fatal => SlogLevel::Critical,
            LogLevel::Error => SlogLevel::Error,
            LogLevel::Warning => SlogLevel::Warning,
            LogLevel::Info => SlogLevel::Info,
            LogLevel::Debug => SlogLevel::Debug,
        }
    }

    pub fn to_slog_level(self) -> (l: SlogLevel)
        ensures
            l == self.slog_level(),
            l != SlogLevel::Trace,
    {
        match self {
            LogLevel::Fatal => SlogLevel::Critical,
            LogLevel::Error => SlogLevel::Error,
            LogLevel::Warning => SlogLevel::Warning,
            LogLevel::Info => SlogLevel::Info,
            LogLevel::Debug => SlogLevel::Debug,
        }
    }
}

#[verifier::external_type_specification]
#[verifier::external_body]
pub struct ExSlogLevel(slog::Level);

/// The level that `slog` has for a number, if it has one.
pub uninterp spec fn slog_level_of(n: usize) -> Option<slog::Level>;

/// Calls `slog::Level::from_usize`, which gives the level that `slog`
/// numbers `n`. Taken on trust: the result depends on `n` alone, and there is
/// a level exactly for the numbers from 1 to 6.
#[verifier::external_body]
fn slog_level_from_usize(n: usize) -> (level: Option<slog::Level>)
    ensures
        level == slog_level_of(n),
        level.is_some() <==> 1 <= n <= 6,
{
    slog::Level::from_usize(n)
}

impl LogLevel {
    /// The level of `slog` under which events of this level are logged: the
    /// one that `slog` numbers as `slog_level()` is numbered.
    pub fn to_slog(self) -> (level: slog::Level)
        ensures
            Some(level) == slog_level_of(self.slog_level().index()),
    {
        match slog_level_from_usize(self.to_slog_level().as_usize()) {
            Some(level) => level,
            None => vstd::pervasive::unreached(),
        }
    }
}

impl From<LogLevel> for slog::Level {
    fn from(level: LogLevel) -> (made: slog::Level) {
        level.to_slog()
    }
}

impl vstd::std_specs::convert::FromSpecImpl<LogLevel> for slog::Level {
    open spec fn obeys_from_spec() -> bool {
        true
    }

    open spec fn from_spec(level: LogLevel) -> slog::Level {
        slog_level_of(level.slog_level().index())->Some_0
    }
}

impl PartialOrd for LogLevel {
    fn partial_cmp(&self, other: &Self) -> (o: Option<Ordering>) {
        Some(self.cmp(other))
    }
}

impl vstd::std_specs::cmp::PartialOrdSpecImpl for LogLevel {
    open spec fn obeys_partial_cmp_spec() -> bool {
        true
    }

    open spec fn partial_cmp_spec(&self, other: &Self) -> Option<Ordering> {
        Some(self.severity_order(*other))
    }
}

/// Severity is a total order on the levels: comparing a level with itself
/// gives equal, only a level itself compares equal to it, swapping the
/// operands reverses the outcome, and "at least as severe as" is transitive.
pub proof fn severity_is_a_total_order(a: LogLevel, b: LogLevel, c: LogLevel)
    ensures
        a.severity_order(a) == Ordering::Equal,
        a.severity_order(b) == Ordering::Equal <==> a == b,
        a.severity_order(b) == Ordering::Less <==> b.severity_order(a) == Ordering::Greater,
        a.severity_order(b) != Ordering::Less && b.severity_order(c) != Ordering::Less
            ==> a.severity_order(c) != Ordering::Less,
{
}

/// Fatal is the most severe level and debug the least severe one.
pub proof fn fatal_is_greatest_and_debug_least(a: LogLevel)
    ensures
        LogLevel::Fatal.severity_order(a) != Ordering::Less,
        LogLevel::Debug.severity_order(a) != Ordering::Greater,
{
}

/// The syslog priority of a log level, kept apart from other small integers.
#[derive(Clone, Debug, Hash)]
pub struct LogPriority(u8);

impl View for LogPriority {
    type V = u8;

    closed spec fn view(&self) -> u8 {
        self.0
    }
}

impl LogPriority {
    pub fn new(log_level: LogLevel) -> (p: LogPriority)
        ensures
            p@ == log_level.priority(),
    {
        let priority: u8 = log_level.get_priority();
        LogPriority(priority)
    }

    pub fn value(&self) -> (v: u8)
        ensures
            v == self@,
    {
        self.0
    }
}

} // verus!
