//! Process-local 64-bit identifiers: a truncated Unix timestamp in the high
//! 32 bits and a per-second sequence counter in the low 32 bits.

use vstd::prelude::*;

verus! {

/// Number of distinct values of the low half of an identifier.
pub open spec fn low_half() -> nat {
    0x1_0000_0000
}

/// The identifier made of `timestamp` in the high half and `count` in the low half.
pub open spec fn combined(timestamp: u32, count: u32) -> nat {
    timestamp as nat * low_half() + count as nat
}

/// The counter after one fetch-and-increment: it wraps at `u32::MAX`.
pub open spec fn bumped(count: u32) -> u32 {
    if count == u32::MAX {
        0
    } else {
        (count + 1) as u32
    }
}

/// One step of the generator in state `(last_ts, next sequence)` at clock
/// reading `now`: the next state and the identifier handed out. The first call
/// in a new second hands out sequence 0 and leaves 1 for the next.
pub open spec fn step(state: (u32, u32), now: u32) -> ((u32, u32), nat) {
    if now == state.0 {
        ((now, bumped(state.1)), combined(now, state.1))
    } else {
        ((now, 1), combined(now, 0))
    }
}

/// A clock reading in whole seconds since the epoch, truncated to 32 bits; a
/// reading before the epoch counts as second 0.
pub open spec fn timestamp_of(reading: Option<u64>) -> u32 {
    match reading {
        Some(secs) => (secs as nat % low_half()) as u32,
        None => 0,
    }
}

#[verifier::external_type_specification]
#[verifier::external_body]
pub struct ExSystemTime(std::time::SystemTime);

/// Relies on `SystemTime::now`: the current time of the system clock. Nothing
/// is promised of the value.
#[verifier::external_body]
fn system_now() -> (r: std::time::SystemTime) {
    std::time::SystemTime::now()
}

/// Relies on `SystemTime::duration_since(UNIX_EPOCH)`: the time elapsed since
/// the Unix epoch, or `None` when `t` is earlier.
#[verifier::external_body]
fn since_epoch(t: &std::time::SystemTime) -> (r: Option<std::time::Duration>) {
    t.duration_since(std::time::UNIX_EPOCH).ok()
}

/// Relies on `Duration::as_secs`: the whole seconds of `d`.
#[verifier::external_body]
fn whole_seconds(d: &std::time::Duration) -> (r: u64) {
    d.as_secs()
}

/// Generator of identifiers that are non-decreasing over sequential calls.
#[derive(Debug)]
pub struct Generator {
    ts: u32,
    count: u32,
}

impl View for Generator {
    /// The last timestamp seen and the next sequence number.
    type V = (u32, u32);

    closed spec fn view(&self) -> (u32, u32) {
        (self.ts, self.count)
    }
}

impl Generator {
    /// A generator whose last timestamp is the current time and whose counter is 0.
    pub fn new() -> (g: Generator)
        ensures
            g@.1 == 0,
    {
        Generator { ts: Self::current_ts(), count: 0 }
    }

    /// Seconds since the Unix epoch, truncated to 32 bits; 0 if the clock reads
    /// a time before the epoch.
    fn current_ts() -> (r: u32)
        ensures
            exists|reading: Option<u64>| r == timestamp_of(reading),
    {
        let now = system_now();
        let reading = match since_epoch(&now) {
            Some(d) => Some(whole_seconds(&d)),
            None => None,
        };
        Self::timestamp(reading)
    }

    /// The 32-bit timestamp of a clock reading.
    pub fn timestamp(reading: Option<u64>) -> (r: u32)
        ensures
            r == timestamp_of(reading),
    {
        match reading {
            Some(secs) => {
                assert((secs as u32) as nat == secs as nat % low_half()) by (bit_vector);
                secs as u32
            },
            None => 0,
        }
    }

    /// `timestamp` in the high 32 bits, `count` in the low 32 bits.
    pub fn combine(timestamp: u32, count: u32) -> (id: u64)
        ensures
            id as nat == combined(timestamp, count),
    {
        let t = timestamp as u64;
        let c = count as u64;
        assert((t << 32u64) | c == t * 0x1_0000_0000u64 + c) by (bit_vector)
            requires
                t <= 0xffff_ffffu64,
                c <= 0xffff_ffffu64,
        ;
        (t << 32u64) | c
    }

    /// Hands out the identifier for clock reading `now`: the next sequence
    /// number if `now` equals the last timestamp seen, else sequence 0, after
    /// which the counter stands at 1.
    pub fn gen_at(&mut self, now: u32) -> (id: u64)
        ensures
            (final(self)@, id as nat) == step(old(self)@, now),
    {
        let last_ts = self.ts;
        self.ts = now;
        let count: u32;
        if now == last_ts {
            count = self.count;
            self.count = self.count.wrapping_add(1);
        } else {
            count = 0;
            self.count = 1;
        }
        Self::combine(now, count)
    }

    /// Hands out the identifier for the current time.
    pub fn gen(&mut self) -> (id: u64)
        ensures
            exists|now: u32| (final(self)@, id as nat) == step(old(self)@, now),
    {
        let now = Self::current_ts();
        self.gen_at(now)
    }
}

/// Two sequential calls with a clock that does not run backwards, from a state
/// whose counter is below its limit: the second identifier is not smaller than
/// the first; when both calls fall in one second, it is exactly one more; when
/// the second call falls in a new second, its low 32 bits are 0.
pub proof fn lemma_ids_monotone(state: (u32, u32), now1: u32, now2: u32)
    requires
        now1 <= now2,
        state.1 < u32::MAX,
    ensures
        ({
            let (s1, id1) = step(state, now1);
            let (s2, id2) = step(s1, now2);
            &&& id1 <= id2
            &&& now2 == now1 ==> id2 == id1 + 1
            &&& now2 != now1 ==> id2 % low_half() == 0
        }),
{
    let (s1, id1) = step(state, now1);
    let (s2, id2) = step(s1, now2);
    if now2 != now1 {
        assert(id2 == now2 as nat * low_half());
        assert((now2 as nat * low_half()) % low_half() == 0) by (nonlinear_arith);
        assert(now1 as nat * low_half() + low_half() <= now2 as nat * low_half()) by (nonlinear_arith)
            requires
                now1 < now2,
        ;
    }
}

/// The identifiers handed out by calls at the clock readings `nows`, in order,
/// from state `state`.
pub open spec fn run(state: (u32, u32), nows: Seq<u32>) -> Seq<nat>
    decreases nows.len(),
{
    if nows.len() == 0 {
        Seq::empty()
    } else {
        let (next, id) = step(state, nows[0]);
        seq![id] + run(next, nows.drop_first())
    }
}

/// Any sequence of calls with a clock that does not run backwards, and fewer
/// calls than the counter has room left for, hands out non-decreasing
/// identifiers.
pub proof fn lemma_run_monotone(state: (u32, u32), nows: Seq<u32>)
    requires
        forall|i: int, j: int| 0 <= i < j < nows.len() ==> nows[i] <= nows[j],
        state.1 as nat + nows.len() < u32::MAX as nat,
    ensures
        run(state, nows).len() == nows.len(),
        forall|i: int| 0 <= i < nows.len() - 1 ==> #[trigger] run(state, nows)[i] <= run(state, nows)[i + 1],
    decreases nows.len(),
{
    if nows.len() > 0 {
        let (next, id) = step(state, nows[0]);
        let rest = nows.drop_first();
        assert(next.1 as nat <= state.1 as nat + 1);
        lemma_run_monotone(next, rest);
        if nows.len() > 1 {
            lemma_ids_monotone(state, nows[0], nows[1]);
            assert(run(next, rest)[0] == step(next, rest[0]).1);
        }
        assert forall|i: int| 0 <= i < nows.len() - 1 implies #[trigger] run(state, nows)[i] <= run(state, nows)[i + 1] by {
            if i > 0 {
                assert(run(state, nows)[i] == run(next, rest)[i - 1]);
                assert(run(state, nows)[i + 1] == run(next, rest)[i]);
            }
        }
    }
}

} // verus!
