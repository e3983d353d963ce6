//! Readiness bitsets: what the kernel reported and what a socket's owner wants.
use vstd::prelude::*;

verus! {

pub const READABLE: u16 = 0b0001;

pub const WRITABLE: u16 = 0b0010;

pub const ERROR: u16 = 0b0100;

pub const HUP: u16 = 0b1000;

/// A set of readiness events, one bit per kind.
#[derive(Debug, Clone, Copy, PartialEq, Eq, Structural)]
pub struct Ready {
    pub bits: u16,
}

impl Ready {
    pub open spec fn has(self, flag: u16) -> bool {
        self.bits & flag != 0
    }

    pub fn empty() -> (r: Ready)
        ensures
            r.bits == 0,
    {
        Ready { bits: 0 }
    }

    pub fn readable() -> (r: Ready)
        ensures
            r.bits == READABLE,
    {
        Ready { bits: READABLE }
    }

    pub fn writable() -> (r: Ready)
        ensures
            r.bits == WRITABLE,
    {
        Ready { bits: WRITABLE }
    }

    pub fn error() -> (r: Ready)
        ensures
            r.bits == ERROR,
    {
        Ready { bits: ERROR }
    }

    pub fn hup() -> (r: Ready)
        ensures
            r.bits == HUP,
    {
        Ready { bits: HUP }
    }

    pub fn all() -> (r: Ready)
        ensures
            r.bits == READABLE | WRITABLE | ERROR | HUP,
    {
        Ready { bits: READABLE | WRITABLE | ERROR | HUP }
    }

    pub fn is_empty(&self) -> (r: bool)
        ensures
            r == (self.bits == 0),
    {
        self.bits == 0
    }

    pub fn is_readable(&self) -> (r: bool)
        ensures
            r == self.has(READABLE),
    {
        self.bits & READABLE != 0
    }

    pub fn is_writable(&self) -> (r: bool)
        ensures
            r == self.has(WRITABLE),
    {
        self.bits & WRITABLE != 0
    }

    pub fn is_error(&self) -> (r: bool)
        ensures
            r == self.has(ERROR),
    {
        self.bits & ERROR != 0
    }

    pub fn is_hup(&self) -> (r: bool)
        ensures
            r == self.has(HUP),
    {
        self.bits & HUP != 0
    }

    /// The events present in both sets.
    pub fn intersection(&self, other: Ready) -> (r: Ready)
        ensures
            r.bits == self.bits & other.bits,
    {
        Ready { bits: self.bits & other.bits }
    }

    /// The events present in either set.
    pub fn union(&self, other: Ready) -> (r: Ready)
        ensures
            r.bits == self.bits | other.bits,
    {
        Ready { bits: self.bits | other.bits }
    }

    /// This set without the events of `other`.
    pub fn remove(&mut self, other: Ready)
        ensures
            final(self).bits == old(self).bits & !other.bits,
    {
        self.bits = self.bits & !other.bits;
    }

    /// This set with the events of `other` added.
    pub fn insert(&mut self, other: Ready)
        ensures
            final(self).bits == old(self).bits | other.bits,
    {
        self.bits = self.bits | other.bits;
    }
}

/// The readiness of one socket: what was reported and what is wanted.
#[derive(Debug, Clone, Copy, PartialEq, Eq, Structural)]
pub struct Readiness {
    /// the current readiness
    pub event: Ready,
    /// the readiness we wish to attain
    pub interest: Ready,
}

impl Readiness {
    pub fn new() -> (r: Readiness)
        ensures
            r.event.bits == 0,
            r.interest.bits == 0,
    {
        Readiness { event: Ready::empty(), interest: Ready::empty() }
    }

    /// Forgets both sets, as when the socket is replaced.
    pub fn reset(&mut self)
        ensures
            final(self).event.bits == 0,
            final(self).interest.bits == 0,
    {
        self.event = Ready::empty();
        self.interest = Ready::empty();
    }

    /// The readiness that is both reported and wanted: what can be acted on.
    pub fn filter_interest(&self) -> (r: Ready)
        ensures
            r.bits == self.event.bits & self.interest.bits,
    {
        self.event.intersection(self.interest)
    }
}

impl Default for Readiness {
    fn default() -> (r: Readiness)
        ensures
            r.event.bits == 0,
            r.interest.bits == 0,
    {
        Readiness::new()
    }
}

/// The four-letter rendering of a readiness set: `R`, `W`, `E`, `H` where
/// the event is present, `-` where it is not.
pub open spec fn ready_letters(r: Ready) -> Seq<u8> {
    seq![
        if r.has(READABLE) { 'R' as u8 } else { '-' as u8 },
        if r.has(WRITABLE) { 'W' as u8 } else { '-' as u8 },
        if r.has(ERROR) { 'E' as u8 } else { '-' as u8 },
        if r.has(HUP) { 'H' as u8 } else { '-' as u8 },
    ]
}

/// `ready_letters` as characters.
pub open spec fn ready_chars(r: Ready) -> Seq<char> {
    seq![
        if r.has(READABLE) { 'R' } else { '-' },
        if r.has(WRITABLE) { 'W' } else { '-' },
        if r.has(ERROR) { 'E' } else { '-' },
        if r.has(HUP) { 'H' } else { '-' },
    ]
}

/// Marks the letter of each present event in the first four bytes of `s`;
/// the bytes of absent events are left as they were.
pub fn display_ready(s: &mut [u8], readiness: Ready)
    requires
        old(s)@.len() >= 4,
    ensures
        final(s)@.len() == old(s)@.len(),
        forall|i: int|
            0 <= i < 4 ==> #[trigger] final(s)@[i] == if ready_letters(readiness)[i] == '-' as u8 {
                old(s)@[i]
            } else {
                ready_letters(readiness)[i]
            },
        forall|i: int| 4 <= i < old(s)@.len() ==> #[trigger] final(s)@[i] == old(s)@[i],
{
    if readiness.is_readable() {
        s[0] = 'R' as u8;
    }
    if readiness.is_writable() {
        s[1] = 'W' as u8;
    }
    if readiness.is_error() {
        s[2] = 'E' as u8;
    }
    if readiness.is_hup() {
        s[3] = 'H' as u8;
    }
}

/// The four-letter rendering of a readiness set, such as `RW--`.
pub fn ready_to_string(readiness: Ready) -> (r: String)
    ensures
        r@ == ready_chars(readiness),
{
    proof {
        reveal_strlit("R");
        reveal_strlit("W");
        reveal_strlit("E");
        reveal_strlit("H");
    }
    let mut s = String::new();
    push_flag(&mut s, readiness.is_readable(), "R");
    push_flag(&mut s, readiness.is_writable(), "W");
    push_flag(&mut s, readiness.is_error(), "E");
    push_flag(&mut s, readiness.is_hup(), "H");
    s
}

fn push_flag(s: &mut String, present: bool, letter: &str)
    requires
        letter@.len() == 1,
    ensures
        final(s)@ == old(s)@.push(if present { letter@[0] } else { '-' }),
{
    let dash = "-";
    proof {
        reveal_strlit("-");
    }
    if present {
        s.append(letter);
    } else {
        s.append(dash);
    }
    assert(s@ =~= old(s)@.push(if present { letter@[0] } else { '-' }));
}

} // verus!
