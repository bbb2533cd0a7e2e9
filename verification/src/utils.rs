use vstd::prelude::*;

verus! {

/// One step of the xorshift64 generator.
pub open spec fn xs_step(x: u64) -> u64 {
    let a = x ^ (x << 13u64);
    let b = a ^ (a >> 7u64);
    b ^ (b << 17u64)
}

/// xorshift64 pseudo-random number generator.
pub struct Xorshift64(u64);

impl Xorshift64 {
    pub closed spec fn state(&self) -> u64 {
        self.0
    }

    /// Seed must be non-zero; a 1-bit is ORed in to guarantee this.
    pub fn new(seed: u64) -> (r: Xorshift64)
        ensures
            r.state() == seed | 1u64,
    {
        Xorshift64(seed | 1)
    }

    pub fn next_u64(&mut self) -> (r: u64)
        ensures
            r == xs_step(old(self).state()),
            final(self).state() == r,
    {
        let x = self.0;
        let a = x ^ (x << 13);
        let b = a ^ (a >> 7);
        let c = b ^ (b << 17);
        self.0 = c;
        c
    }

    pub fn next_usize(&mut self) -> (r: usize)
        ensures
            r == xs_step(old(self).state()) as usize,
            final(self).state() == xs_step(old(self).state()),
    {
        self.next_u64() as usize
    }
}

/// Builds a `String` from its characters.
///
/// Trusted: calls `String::from_iter` on the vector, which (per std's
/// documentation) yields the string holding exactly those characters in order.
#[verifier::external_body]
pub(crate) fn string_from_chars(v: Vec<char>) -> (s: String)
    ensures
        s@ == v@,
{
    String::from_iter(v)
}

} // verus!
