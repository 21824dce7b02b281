//! Time as the fault runs see it: the clock of the machine, or a virtual one
//! that moves only when it is told to.
use vstd::prelude::*;

verus! {

/// Something that knows the time in nanoseconds.
pub trait Clock: Send + Sync {
    /// Whether the clock may read so. Where nothing is said of it, it may read
    /// anything.
    open spec fn may_read(&self, ns: u64) -> bool {
        true
    }

    fn now_ns(&self) -> (r: u64)
        ensures
            self.may_read(r),
    ;
}

/// The clock of the machine, in nanoseconds since the Unix epoch. Where it
/// stands before the epoch it reads as zero.
pub struct SystemClock;

/// Calls `SystemTime::elapsed` on the Unix epoch: the nanoseconds that have
/// passed since, or `None` where the clock of the machine stands before it.
/// Nothing is claimed of the result, which is the time of day.
#[verifier::external_body]
fn nanos_since_epoch() -> (r: Option<u128>) {
    match std::time::UNIX_EPOCH.elapsed() {
        Ok(elapsed) => Some(elapsed.as_nanos()),
        Err(_) => None,
    }
}

/// What a clock reads that has run for so many nanoseconds, where it has
/// started.
pub open spec fn reading_of(nanos: Option<u128>) -> u64 {
    match nanos {
        Some(n) => (n as int % 0x1_0000_0000_0000_0000) as u64,
        None => 0,
    }
}

/// The reading of a clock that has run for so many nanoseconds: what fits of
/// them. A clock that has not started yet reads as zero.
pub fn reading(nanos: Option<u128>) -> (r: u64)
    ensures
        r == (match nanos {
            Some(n) => n as int % 0x1_0000_0000_0000_0000,
            None => 0,
        }),
        r == reading_of(nanos),
{
    match nanos {
        Some(n) => {
            assert(#[verifier::truncate] (n as u64) == n % 0x1_0000_0000_0000_0000u128)
                by (bit_vector);
            #[verifier::truncate] (n as u64)
        },
        None => 0,
    }
}

impl Clock for SystemClock {
    fn now_ns(&self) -> (r: u64) {
        reading(nanos_since_epoch())
    }
}

/// A virtual clock for deterministic replay. It advances only when it is told
/// to, never on its own, so a schedule that runs against it does not depend on
/// how long anything took.
pub struct VirtualClock {
    ns: u64,
}

/// The reading after `delta` more nanoseconds: a clock never goes back, and
/// stays at the last value that fits.
pub open spec fn advanced(now: u64, delta: u64) -> u64 {
    if now + delta <= u64::MAX {
        (now + delta) as u64
    } else {
        u64::MAX
    }
}

impl View for VirtualClock {
    type V = u64;

    closed spec fn view(&self) -> u64 {
        self.ns
    }
}

impl VirtualClock {
    pub fn new(start_ns: u64) -> (r: Self)
        ensures
            r@ == start_ns,
    {
        VirtualClock { ns: start_ns }
    }

    /// Moves the clock forward.
    pub fn advance(&mut self, delta_ns: u64)
        ensures
            final(self)@ == advanced(old(self)@, delta_ns),
            final(self)@ >= old(self)@,
    {
        self.ns = self.ns.saturating_add(delta_ns);
    }
}

impl Clock for VirtualClock {
    open spec fn may_read(&self, ns: u64) -> bool {
        ns == self@
    }

    fn now_ns(&self) -> (r: u64) {
        self.ns
    }
}

/// A virtual clock moves by as much as it is told, and two moves are one move by
/// the sum of the two. At the last value that fits it stays.
pub proof fn law_virtual_clock_adds_up(now: u64, delta: u64, more: u64)
    ensures
        now + delta <= u64::MAX ==> advanced(now, delta) == now + delta,
        now + delta > u64::MAX ==> advanced(now, delta) == u64::MAX,
        delta + more <= u64::MAX ==> advanced(advanced(now, delta), more) == advanced(
            now,
            (delta + more) as u64,
        ),
        advanced(now, 0) == now,
{
}

/// A clock reads the nanoseconds themselves, as long as they fit; from there on
/// it starts again at zero. Before it has started it reads as zero.
pub proof fn law_clock_reads_nanoseconds(n: u128)
    ensures
        n <= u64::MAX ==> reading_of(Some(n)) == n,
        n > u64::MAX ==> reading_of(Some(n)) == reading_of(
            Some((n - 0x1_0000_0000_0000_0000) as u128),
        ),
        reading_of(None) == 0,
{
    vstd::arithmetic::div_mod::lemma_mod_sub_multiples_vanish(
        n as int,
        0x1_0000_0000_0000_0000,
    );
}

} // verus!
