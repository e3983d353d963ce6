//! Timing and byte counters of a session. Instants and durations are
//! nanoseconds on a monotonic clock; a difference that would be negative
//! counts as zero and sums saturate.
use vstd::prelude::*;

verus! {

/// Time from `start` to `end`, zero if `end` comes first.
pub open spec fn elapsed(start: u64, end: u64) -> u64 {
    if end >= start {
        (end - start) as u64
    } else {
        0
    }
}

pub open spec fn sat_add(a: u64, b: u64) -> u64 {
    if a + b <= u64::MAX {
        (a + b) as u64
    } else {
        u64::MAX
    }
}

fn since(start: u64, end: u64) -> (r: u64)
    ensures
        r == elapsed(start, end),
{
    if end >= start {
        end - start
    } else {
        0
    }
}

fn add_saturating(a: u64, b: u64) -> (r: u64)
    ensures
        r == sat_add(a, b),
{
    if a <= u64::MAX - b {
        a + b
    } else {
        u64::MAX
    }
}

#[derive(Debug, Clone, Copy, PartialEq, Eq, Structural)]
pub struct SessionMetrics {
    /// instant at which handling of the request started
    pub start: Option<u64>,
    /// time actually spent handling the request
    pub service_time: u64,
    /// time spent waiting for its turn
    pub wait_time: u64,
    /// bytes received by the frontend
    pub bin: usize,
    /// bytes sent by the frontend
    pub bout: usize,
    /// instant at which the current stretch of work started
    pub service_start: Option<u64>,
    pub wait_start: u64,
    pub backend_start: Option<u64>,
    pub backend_connected: Option<u64>,
    pub backend_stop: Option<u64>,
    pub backend_bin: usize,
    pub backend_bout: usize,
}

impl SessionMetrics {
    pub fn new(wait_time: Option<u64>, now: u64) -> (r: SessionMetrics)
        ensures
            r.start == Some(now),
            r.service_time == 0,
            r.wait_time == match wait_time {
                Some(w) => w,
                None => 0,
            },
            r.bin == 0 && r.bout == 0 && r.backend_bin == 0 && r.backend_bout == 0,
            r.service_start is None,
            r.wait_start == now,
            r.backend_start is None && r.backend_connected is None && r.backend_stop is None,
    {
        SessionMetrics {
            start: Some(now),
            service_time: 0,
            wait_time: match wait_time {
                Some(w) => w,
                None => 0,
            },
            bin: 0,
            bout: 0,
            service_start: None,
            wait_start: now,
            backend_start: None,
            backend_connected: None,
            backend_stop: None,
            backend_bin: 0,
            backend_bout: 0,
        }
    }

    /// Clears the counters for the next request; the wait start stays.
    pub fn reset(&mut self)
        ensures
            *final(self) == (SessionMetrics {
                start: None,
                service_time: 0,
                wait_time: 0,
                bin: 0,
                bout: 0,
                service_start: None,
                backend_start: None,
                backend_connected: None,
                backend_stop: None,
                backend_bin: 0,
                backend_bout: 0,
                ..*old(self)
            }),
    {
        self.start = None;
        self.service_time = 0;
        self.wait_time = 0;
        self.bin = 0;
        self.bout = 0;
        self.service_start = None;
        self.backend_start = None;
        self.backend_connected = None;
        self.backend_stop = None;
        self.backend_bin = 0;
        self.backend_bout = 0;
    }

    /// Work on the request resumes at `now`: the wait since `wait_start` is counted.
    pub fn service_start(&mut self, now: u64)
        ensures
            *final(self) == (SessionMetrics {
                start: match old(self).start {
                    Some(s) => Some(s),
                    None => Some(now),
                },
                service_start: Some(now),
                wait_time: sat_add(old(self).wait_time, elapsed(old(self).wait_start, now)),
                ..*old(self)
            }),
    {
        if self.start.is_none() {
            self.start = Some(now);
        }
        self.service_start = Some(now);
        self.wait_time = add_saturating(self.wait_time, since(self.wait_start, now));
    }

    /// Work on the request pauses at `now`: the stretch since `service_start` is counted.
    pub fn service_stop(&mut self, now: u64)
        ensures
            *final(self) == match old(self).service_start {
                Some(s) => SessionMetrics {
                    service_start: None,
                    service_time: sat_add(old(self).service_time, elapsed(s, now)),
                    ..*old(self)
                },
                None => *old(self),
            },
    {
        if let Some(start) = self.service_start {
            self.service_start = None;
            self.service_time = add_saturating(self.service_time, since(start, now));
        }
    }

    pub fn wait_start(&mut self, now: u64)
        ensures
            *final(self) == (SessionMetrics { wait_start: now, ..*old(self) }),
    {
        self.wait_start = now;
    }

    /// Service time up to `now`, the current stretch included.
    pub fn service_time(&self, now: u64) -> (r: u64)
        ensures
            r == match self.service_start {
                Some(s) => sat_add(self.service_time, elapsed(s, now)),
                None => self.service_time,
            },
    {
        match self.service_start {
            Some(start) => add_saturating(self.service_time, since(start, now)),
            None => self.service_time,
        }
    }

    /// Time since the request started.
    pub fn response_time(&self, now: u64) -> (r: u64)
        ensures
            r == match self.start {
                Some(s) => elapsed(s, now),
                None => 0,
            },
    {
        match self.start {
            Some(start) => since(start, now),
            None => 0,
        }
    }

    pub fn backend_start(&mut self, now: u64)
        ensures
            *final(self) == (SessionMetrics { backend_start: Some(now), ..*old(self) }),
    {
        self.backend_start = Some(now);
    }

    pub fn backend_connected(&mut self, now: u64)
        ensures
            *final(self) == (SessionMetrics { backend_connected: Some(now), ..*old(self) }),
    {
        self.backend_connected = Some(now);
    }

    pub fn backend_stop(&mut self, now: u64)
        ensures
            *final(self) == (SessionMetrics { backend_stop: Some(now), ..*old(self) }),
    {
        self.backend_stop = Some(now);
    }

    /// Time the backend took to answer: from connection to stop, or to `now`
    /// while it has not stopped.
    pub fn backend_response_time(&self, now: u64) -> (r: Option<u64>)
        ensures
            r == match (self.backend_connected, self.backend_stop) {
                (Some(s), Some(e)) => Some(elapsed(s, e)),
                (Some(s), None) => Some(elapsed(s, now)),
                _ => None,
            },
    {
        match (self.backend_connected, self.backend_stop) {
            (Some(start), Some(end)) => Some(since(start, end)),
            (Some(start), None) => Some(since(start, now)),
            _ => None,
        }
    }

    /// Time the backend connection took to establish.
    pub fn backend_connection_time(&self) -> (r: Option<u64>)
        ensures
            r == match (self.backend_start, self.backend_connected) {
                (Some(s), Some(e)) => Some(elapsed(s, e)),
                _ => None,
            },
    {
        match (self.backend_start, self.backend_connected) {
            (Some(start), Some(end)) => Some(since(start, end)),
            _ => None,
        }
    }
}

/// A duration in nanoseconds, written for access logs in the largest unit
/// that keeps two significant digits.
#[derive(Debug, Clone, Copy, PartialEq, Eq, Structural)]
pub struct LogDuration(pub u64);

pub open spec fn digit_char(d: nat) -> char {
    if d == 0 { '0' }
    else if d == 1 { '1' }
    else if d == 2 { '2' }
    else if d == 3 { '3' }
    else if d == 4 { '4' }
    else if d == 5 { '5' }
    else if d == 6 { '6' }
    else if d == 7 { '7' }
    else if d == 8 { '8' }
    else { '9' }
}

/// The decimal digits of `n`, without leading zeros.
pub open spec fn decimal(n: nat) -> Seq<char>
    decreases n,
{
    if n < 10 {
        seq![digit_char(n)]
    } else {
        decimal(n / 10).push(digit_char(n % 10))
    }
}

/// `LogDuration`'s text for `ns` nanoseconds: whole seconds from ten seconds
/// on, whole milliseconds from ten milliseconds on, then whole microseconds
/// from ten microseconds on, else nanoseconds.
pub open spec fn log_duration_text(ns: u64) -> Seq<char> {
    let secs = ns / 1_000_000_000;
    let ms = ns / 1_000_000;
    let us = ns / 1_000;
    if secs >= 10 {
        decimal(secs as nat) + seq!['s']
    } else if ms >= 10 {
        decimal(ms as nat) + seq!['m', 's']
    } else if us >= 10 {
        decimal(us as nat) + seq!['\u{3bc}', 's']
    } else {
        decimal(ns as nat) + seq!['n', 's']
    }
}

fn push_digit(s: &mut String, d: u64)
    requires
        d < 10,
    ensures
        final(s)@ == old(s)@.push(digit_char(d as nat)),
{
    let lit = if d == 0 {
        "0"
    } else if d == 1 {
        "1"
    } else if d == 2 {
        "2"
    } else if d == 3 {
        "3"
    } else if d == 4 {
        "4"
    } else if d == 5 {
        "5"
    } else if d == 6 {
        "6"
    } else if d == 7 {
        "7"
    } else if d == 8 {
        "8"
    } else {
        "9"
    };
    proof {
        reveal_strlit("0");
        reveal_strlit("1");
        reveal_strlit("2");
        reveal_strlit("3");
        reveal_strlit("4");
        reveal_strlit("5");
        reveal_strlit("6");
        reveal_strlit("7");
        reveal_strlit("8");
        reveal_strlit("9");
    }
    s.append(lit);
    assert(s@ =~= old(s)@.push(digit_char(d as nat)));
}

/// Appends the decimal digits of `n`.
pub fn push_decimal(s: &mut String, n: u64)
    ensures
        final(s)@ == old(s)@ + decimal(n as nat),
    decreases n,
{
    if n < 10 {
        push_digit(s, n);
        assert(s@ =~= old(s)@ + decimal(n as nat));
    } else {
        push_decimal(s, n / 10);
        push_digit(s, n % 10);
        assert(s@ =~= old(s)@ + decimal(n as nat));
    }
}

impl LogDuration {
    /// The access-log text of the duration, such as `12ms`.
    pub fn to_log_string(&self) -> (r: String)
        ensures
            r@ == log_duration_text(self.0),
    {
        let ns = self.0;
        let secs = ns / 1_000_000_000;
        let ms = ns / 1_000_000;
        let us = ns / 1_000;
        let mut s = String::new();
        let unit = if secs >= 10 {
            push_decimal(&mut s, secs);
            "s"
        } else if ms >= 10 {
            push_decimal(&mut s, ms);
            "ms"
        } else if us >= 10 {
            push_decimal(&mut s, us);
            "\u{3bc}s"
        } else {
            push_decimal(&mut s, ns);
            "ns"
        };
        proof {
            reveal_strlit("s");
            reveal_strlit("ms");
            reveal_strlit("\u{3bc}s");
            reveal_strlit("ns");
        }
        s.append(unit);
        assert(s@ =~= log_duration_text(ns));
        s
    }
}

} // verus!
