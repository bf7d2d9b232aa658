//! The trigger window: when, around the configured time of day, the burst
//! of buy orders may start.
use vstd::prelude::*;
use chrono::{NaiveTime, Timelike};

verus! {

/// Hour, minute and second that `HH:MM:SS` text reads as, if it is a time.
pub uninterp spec fn hms_of(s: Seq<char>) -> Option<(u32, u32, u32)>;

/// Relies on `chrono::NaiveTime::parse_from_str` with format `%H:%M:%S` and on
/// `Timelike::{hour, minute, second}`, which lie in 0..24, 0..60 and 0..60.
#[verifier::external_body]
fn parse_hms(s: &str) -> (r: Option<(u32, u32, u32)>)
    ensures
        r == hms_of(s@),
        r matches Some((h, m, sec)) ==> h < 24 && m < 60 && sec < 60,
{
    NaiveTime::parse_from_str(s, "%H:%M:%S").ok().map(|t| (t.hour(), t.minute(), t.second()))
}

pub open spec fn day_offset_ms(h: nat, m: nat, s: nat) -> nat {
    ((h * 60 + m) * 60 + s) * 1000
}

/// Milliseconds from midnight to `h:m:s`.
pub fn time_of_day_ms(h: u32, m: u32, s: u32) -> (r: u32)
    requires
        h < 24,
        m < 60,
        s < 60,
    ensures
        r == day_offset_ms(h as nat, m as nat, s as nat),
{
    ((h * 60 + m) * 60 + s) * 1000
}

/// Reads the configured trigger time, `HH:MM:SS`, as milliseconds from
/// midnight.
pub fn parse_trigger_time(s: &str) -> (r: Option<u32>)
    ensures
        r == match hms_of(s@) {
            Some((h, m, sec)) => Some(day_offset_ms(h as nat, m as nat, sec as nat) as u32),
            None => None::<u32>,
        },
{
    match parse_hms(s) {
        Some((h, m, sec)) => Some(time_of_day_ms(h, m, sec)),
        None => None,
    }
}

/// The half-open window `[start_ms, end_ms)` in which orders may be fired.
#[derive(PartialEq, Eq, Structural, Clone, Copy, Debug)]
pub struct TriggerWindow {
    pub start_ms: i64,
    pub end_ms: i64,
}

/// The window that opens `lead_secs` seconds before `target_ms` and closes
/// at it.
pub fn trigger_window(target_ms: i64, lead_secs: u64) -> (r: TriggerWindow)
    requires
        target_ms - lead_secs * 1000 >= i64::MIN,
    ensures
        r.start_ms == target_ms - lead_secs * 1000,
        r.end_ms == target_ms,
{
    TriggerWindow { start_ms: (target_ms as i128 - lead_secs as i128 * 1000) as i64, end_ms: target_ms }
}

/// What the scheduler does at a poll.
#[derive(PartialEq, Eq, Structural, Clone, Copy, Debug)]
pub enum TriggerAction {
    /// The window is open: start the burst.
    Fire,
    /// Sleep a short interval and poll the clock again.
    Wait,
}

impl TriggerWindow {
    pub open spec fn holds(self, now_ms: int) -> bool {
        self.start_ms <= now_ms < self.end_ms
    }

    /// Tells whether `now_ms` lies in the window.
    pub fn contains(&self, now_ms: i64) -> (r: bool)
        ensures
            r == self.holds(now_ms as int),
    {
        self.start_ms <= now_ms && now_ms < self.end_ms
    }

    /// The scheduler's decision at time `now_ms`.
    pub fn step(&self, now_ms: i64) -> (r: TriggerAction)
        ensures
            r == (if self.holds(now_ms as int) { TriggerAction::Fire } else { TriggerAction::Wait }),
    {
        if self.contains(now_ms) {
            TriggerAction::Fire
        } else {
            TriggerAction::Wait
        }
    }
}

/// The window that `trigger_window` gives for a target and a lead of at
/// least one second is closed one second before it opens, open at its start
/// and one second before the target, and closed at the target itself.
pub proof fn lemma_window_edges(w: TriggerWindow, target_ms: i64, lead_secs: u64)
    requires
        lead_secs >= 1,
        target_ms - lead_secs * 1000 >= i64::MIN,
        w.start_ms == target_ms - lead_secs * 1000,
        w.end_ms == target_ms,
    ensures
        !w.holds(target_ms - lead_secs * 1000 - 1000),
        w.holds(target_ms - lead_secs * 1000),
        w.holds(target_ms - 1000),
        !w.holds(target_ms as int),
{
}

} // verus!
