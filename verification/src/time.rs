use vstd::prelude::*;

use std::time::Duration;

verus! {

/// Whole seconds held by a `Duration`, as `Duration::as_secs` returns them.
pub uninterp spec fn duration_secs(d: Duration) -> u64;

/// Nanoseconds beyond the whole seconds of a `Duration`, as
/// `Duration::subsec_nanos` returns them.
pub uninterp spec fn duration_subsec_nanos(d: Duration) -> u32;

/// `Duration::as_secs`: the whole seconds of `d`, named by `duration_secs`.
#[verifier::external_body]
fn whole_secs(d: &Duration) -> (s: u64)
    ensures
        s == duration_secs(*d),
{
    d.as_secs()
}

/// `Duration::subsec_nanos`: the nanoseconds of `d` beyond its whole seconds,
/// named by `duration_subsec_nanos`; std documents them as always below one
/// billion.
#[verifier::external_body]
fn subsec_nanos(d: &Duration) -> (n: u32)
    ensures
        n == duration_subsec_nanos(*d),
        n < 1_000_000_000,
{
    d.subsec_nanos()
}

/// Milliseconds of a time span given as whole seconds and the nanoseconds
/// beyond them, taken modulo 2^64 as the machine word holds them.
pub open spec fn millis(secs: u64, subsec_nanos: u32) -> int {
    (secs * 1000 + subsec_nanos / 1_000_000) % 0x1_0000_0000_0000_0000
}

/// Milliseconds of a time span given as whole seconds and the nanoseconds
/// beyond them; wraps around 2^64 like the word-sized sum it is.
pub fn millis_from_parts(secs: u64, subsec_nanos: u32) -> (ms: u64)
    ensures
        ms == millis(secs, subsec_nanos),
        secs * 1000 + subsec_nanos / 1_000_000 <= u64::MAX ==> ms == secs * 1000 + subsec_nanos
            / 1_000_000,
{
    let whole = secs.wrapping_mul(1000);
    let part = (subsec_nanos / 1_000_000) as u64;
    let ms = whole.wrapping_add(part);
    proof {
        let m: int = 0x1_0000_0000_0000_0000;
        assert(whole == (secs * 1000) % m);
        assert(ms == (whole + part) % m);
        vstd::arithmetic::div_mod::lemma_add_mod_noop(secs * 1000, part as int, m);
        vstd::arithmetic::div_mod::lemma_small_mod(part as nat, m as nat);
        vstd::arithmetic::div_mod::lemma_mod_twice(whole as int, m);
    }
    ms
}

/// The milliseconds are the exact sum whenever it fits in 64 bits.
pub proof fn lemma_millis_exact(secs: u64, subsec_nanos: u32)
    requires
        secs * 1000 + subsec_nanos / 1_000_000 <= u64::MAX,
    ensures
        millis(secs, subsec_nanos) == secs * 1000 + subsec_nanos / 1_000_000,
{
    vstd::arithmetic::div_mod::lemma_small_mod(
        (secs * 1000 + subsec_nanos / 1_000_000) as nat,
        0x1_0000_0000_0000_0000,
    );
}

/// A time span that can tell how many milliseconds it holds.
pub trait AsMillis {
    /// Millisecond count of the span, as `millis` says of its parts.
    spec fn millis_spec(&self) -> int;

    /// What else the span's parts are known to satisfy.
    spec fn parts_in_range(&self) -> bool;

    fn as_millis(&self) -> (ms: u64)
        ensures
            ms == self.millis_spec(),
            self.parts_in_range(),
    ;
}

impl AsMillis for Duration {
    /// Whole milliseconds of the duration: its seconds times a thousand plus
    /// its sub-second milliseconds.
    open spec fn millis_spec(&self) -> int {
        millis(duration_secs(*self), duration_subsec_nanos(*self))
    }

    /// The nanoseconds beyond the whole seconds are below one billion.
    open spec fn parts_in_range(&self) -> bool {
        duration_subsec_nanos(*self) < 1_000_000_000
    }

    fn as_millis(&self) -> (ms: u64) {
        millis_from_parts(whole_secs(self), subsec_nanos(self))
    }
}

} // verus!
