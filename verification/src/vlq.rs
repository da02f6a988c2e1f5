//! Base-64 variable-length quantities, the number format of source maps.

use vstd::prelude::*;
use crate::text::push_char;

verus! {

/// The base-64 digit for a value below 64, from the alphabet
/// `A-Z a-z 0-9 + /`.
pub open spec fn digit(y: int) -> char {
    if y < 26 {
        (65 + y) as u8 as char
    } else if y < 52 {
        (97 + (y - 26)) as u8 as char
    } else if y < 62 {
        (48 + (y - 52)) as u8 as char
    } else if y == 62 {
        '+'
    } else {
        '/'
    }
}

/// The digits that carry the group `y` (below 32) followed by the groups of
/// `rest`, five bits at a time, least significant first. Every digit but the
/// last has the continuation bit (32) set.
pub open spec fn groups(y: int, rest: nat) -> Seq<char>
    decreases rest,
{
    if rest == 0 {
        seq![digit(y)]
    } else {
        seq![digit(y + 32)] + groups((rest % 32) as int, rest / 32)
    }
}

/// The encoding of a signed number: the first group holds the sign in its
/// lowest bit and the four lowest bits of the magnitude above it; the
/// remaining bits of the magnitude follow in groups of five.
pub open spec fn encoding(n: int) -> Seq<char> {
    let m = if n < 0 { -n } else { n };
    groups((m % 16) * 2 + if n < 0 { 1int } else { 0int }, (m / 16) as nat)
}

/// An encoder that reuses one buffer between calls.
pub struct Vlq {
    buf: String,
}

fn digit_of(y: u8) -> (c: char)
    requires
        y < 64,
    ensures
        c == digit(y as int),
{
    if y < 26 {
        (65u8 + y) as char
    } else if y < 52 {
        (97u8 + (y - 26)) as char
    } else if y < 62 {
        (48u8 + (y - 52)) as char
    } else if y == 62 {
        '+'
    } else {
        '/'
    }
}

impl Vlq {
    /// The digits that the encoder holds: those of the number that it
    /// encoded last.
    pub closed spec fn digits(&self) -> Seq<char> {
        self.buf@
    }

    /// A new encoder, which holds no digits.
    pub fn new() -> (v: Self)
        ensures
            v.digits() == Seq::<char>::empty(),
    {
        Vlq { buf: String::new() }
    }

    /// Encodes `n`. The smallest `isize` has no magnitude of its type and is
    /// left out.
    pub fn enc(&mut self, n: isize) -> (s: &str)
        requires
            n > isize::MIN,
        ensures
            s@ == encoding(n as int),
            final(self).digits() == encoding(n as int),
    {
        let sign = n < 0;
        let m: usize = if sign { (-n) as usize } else { n as usize };
        let mut y: u8 = ((m % 16) * 2) as u8 + if sign { 1u8 } else { 0u8 };
        let mut r: usize = m / 16;
        self.buf = String::new();
        while r > 0
            invariant
                y < 32,
                self.buf@ + groups(y as int, r as nat) == encoding(n as int),
            decreases r,
        {
            push_char(&mut self.buf, digit_of(y + 32));
            assert(self.buf@ + groups((r % 32) as int, (r / 32) as nat) =~= encoding(n as int));
            y = (r % 32) as u8;
            r = r / 32;
        }
        push_char(&mut self.buf, digit_of(y));
        assert(self.buf@ =~= encoding(n as int));
        self.buf.as_str()
    }
}

} // verus!
