//! The hybrid logical clock: issues timestamps that are strictly increasing
//! for local events even when the physical clock stalls, and merges a peer
//! clock's timestamp without ever moving backwards.
use crate::timer::SysTime;
use vstd::prelude::*;

verus! {

/// A hybrid logical timestamp: a physical pair `(sec, nsec)` read from the
/// monotonic clock, and a logical counter that disambiguates timestamps
/// issued within one physical tick. Ordered lexicographically by
/// `sec`, then `nsec`, then `counter`.
#[derive(Clone, Copy, PartialEq, Eq, Structural, Debug)]
pub struct HlcTimestamp {
    pub sec: i64,
    pub nsec: i64,
    pub counter: i64,
}

/// Strict total order on timestamps: `sec`, then `nsec`, then `counter`.
pub open spec fn ts_lt(a: HlcTimestamp, b: HlcTimestamp) -> bool {
    ||| a.sec < b.sec
    ||| (a.sec == b.sec && a.nsec < b.nsec)
    ||| (a.sec == b.sec && a.nsec == b.nsec && a.counter < b.counter)
}

pub open spec fn ts_le(a: HlcTimestamp, b: HlcTimestamp) -> bool {
    ts_lt(a, b) || a == b
}

/// Whether the physical pair of `a` equals the sample `(sec, nsec)`.
pub open spec fn same_pair(a: HlcTimestamp, sec: i64, nsec: i64) -> bool {
    a.sec == sec && a.nsec == nsec
}

/// Order on a timestamp's physical pair against a raw sample.
pub open spec fn pair_le(a: HlcTimestamp, sec: i64, nsec: i64) -> bool {
    a.sec < sec || (a.sec == sec && a.nsec <= nsec)
}

/// Order between two raw samples.
pub open spec fn sample_le(a: (i64, i64), b: (i64, i64)) -> bool {
    a.0 < b.0 || (a.0 == b.0 && a.1 <= b.1)
}

/// The timestamp issued when a clock whose last issued timestamp is `last`
/// observes the physical sample `(sec, nsec)`: if the sample equals the last
/// physical pair the counter advances by one, otherwise the clock adopts the
/// sample and the counter starts over at zero.
pub open spec fn tick_spec(last: HlcTimestamp, sec: i64, nsec: i64) -> HlcTimestamp {
    if same_pair(last, sec, nsec) {
        HlcTimestamp { sec, nsec, counter: (last.counter + 1) as i64 }
    } else {
        HlcTimestamp { sec, nsec, counter: 0 }
    }
}

/// The timestamp held after merging a remote clock's current timestamp
/// `remote` into a local clock holding `local`: nothing changes when the
/// local clock is already at or ahead of the remote; otherwise the remote's
/// physical pair is adopted, with the counter restarting at zero when that
/// pair is strictly ahead of the local pair, and advancing past the remote's
/// counter when the pairs tie, so that the local clock never moves backwards.
pub open spec fn merge_spec(local: HlcTimestamp, remote: HlcTimestamp) -> HlcTimestamp {
    if ts_le(remote, local) {
        local
    } else if local.sec == remote.sec && local.nsec == remote.nsec {
        HlcTimestamp { sec: remote.sec, nsec: remote.nsec, counter: (remote.counter + 1) as i64 }
    } else {
        HlcTimestamp { sec: remote.sec, nsec: remote.nsec, counter: 0 }
    }
}

/// A hybrid logical clock: the sampler it reads physical time from, and the
/// last timestamp it issued. Issuing and merging take the clock exclusively;
/// callers that share one clock across threads serialize access around it.
pub struct Hlc {
    /// Handle on the shared cell the sampler loop publishes into.
    pub curtime: SysTime,
    /// The most recently issued timestamp.
    pub last: HlcTimestamp,
}

impl Hlc {
    /// A fresh clock over the given sampler, primed with the sample the
    /// sampler holds right now and a zero counter.
    pub fn new(curtime: SysTime) -> (clock: Hlc)
        ensures
            clock.curtime == curtime,
            clock.last.counter == 0,
    {
        let sample = curtime.load();
        Hlc { curtime, last: HlcTimestamp { sec: sample.0, nsec: sample.1, counter: 0 } }
    }

    /// The core issuing step, with the physical sample passed in: advances
    /// the counter when the sample ties with the last issued physical pair,
    /// otherwise adopts the sample with a zero counter. The returned
    /// timestamp is always the clock's new `last`.
    pub fn tick(&mut self, sec: i64, nsec: i64) -> (t: HlcTimestamp)
        requires
            old(self).last.counter < i64::MAX,
        ensures
            t == tick_spec(old(self).last, sec, nsec),
            final(self).last == t,
            final(self).curtime == old(self).curtime,
    {
        if sec == self.last.sec && nsec == self.last.nsec {
            self.last = HlcTimestamp { sec, nsec, counter: self.last.counter + 1 };
        } else {
            self.last = HlcTimestamp { sec, nsec, counter: 0 };
        }
        self.last
    }

    /// Issues a timestamp for a local event, reading the physical sample from
    /// the clock's own sampler. Whatever sample the shared cell hands back,
    /// the result is exactly one issuing step from the previous state, so its
    /// counter is `last.counter + 1` on a tied physical pair and `0` on any
    /// other.
    pub fn timestamp(&mut self) -> (t: HlcTimestamp)
        requires
            old(self).last.counter < i64::MAX,
        ensures
            t == tick_spec(old(self).last, t.sec, t.nsec),
            final(self).last == t,
            final(self).curtime == old(self).curtime,
    {
        let sample = self.curtime.load();
        self.tick(sample.0, sample.1)
    }

    /// Merges the current timestamp of `other` into this clock and returns
    /// the merged timestamp, which is also the clock's new `last`. When this
    /// clock is already at or ahead of `other` the call changes nothing and
    /// returns the held timestamp; otherwise the remote physical pair is
    /// adopted as `merge_spec` states. In every case the clock does not move
    /// backwards.
    pub fn update_timestamp(&mut self, other: &Hlc) -> (t: Option<HlcTimestamp>)
        requires
            other.last.counter < i64::MAX,
        ensures
            t == Some(final(self).last),
            final(self).last == merge_spec(old(self).last, other.last),
            final(self).curtime == old(self).curtime,
            ts_le(old(self).last, final(self).last),
            ts_le(other.last, old(self).last) ==> final(self).last == old(self).last,
    {
        if ts_ge_exec(&self.last, &other.last) {
            Some(self.last)
        } else if self.last.sec == other.last.sec && self.last.nsec == other.last.nsec {
            self.last = HlcTimestamp {
                sec: other.last.sec,
                nsec: other.last.nsec,
                counter: other.last.counter + 1,
            };
            Some(self.last)
        } else {
            self.last = HlcTimestamp { sec: other.last.sec, nsec: other.last.nsec, counter: 0 };
            Some(self.last)
        }
    }
}

impl PartialEq for Hlc {
    /// Clocks compare by the timestamp they currently hold, not by history.
    fn eq(&self, other: &Hlc) -> (r: bool) {
        self.last == other.last
    }
}

impl vstd::std_specs::cmp::PartialEqSpecImpl for Hlc {
    open spec fn obeys_eq_spec() -> bool {
        true
    }

    open spec fn eq_spec(&self, other: &Hlc) -> bool {
        self.last == other.last
    }
}

impl PartialOrd for Hlc {
    /// Clocks order by the timestamp they currently hold, under the total
    /// order on timestamps.
    fn partial_cmp(&self, other: &Hlc) -> (r: Option<core::cmp::Ordering>) {
        if ts_lt_exec(&self.last, &other.last) {
            Some(core::cmp::Ordering::Less)
        } else if ts_lt_exec(&other.last, &self.last) {
            Some(core::cmp::Ordering::Greater)
        } else {
            Some(core::cmp::Ordering::Equal)
        }
    }
}

impl vstd::std_specs::cmp::PartialOrdSpecImpl for Hlc {
    open spec fn obeys_partial_cmp_spec() -> bool {
        true
    }

    open spec fn partial_cmp_spec(&self, other: &Hlc) -> Option<core::cmp::Ordering> {
        if ts_lt(self.last, other.last) {
            Some(core::cmp::Ordering::Less)
        } else if ts_lt(other.last, self.last) {
            Some(core::cmp::Ordering::Greater)
        } else {
            Some(core::cmp::Ordering::Equal)
        }
    }
}

/// Executable form of the total order of `ts_lt`.
pub fn ts_lt_exec(a: &HlcTimestamp, b: &HlcTimestamp) -> (r: bool)
    ensures
        r == ts_lt(*a, *b),
{
    if a.sec != b.sec {
        a.sec < b.sec
    } else if a.nsec != b.nsec {
        a.nsec < b.nsec
    } else {
        a.counter < b.counter
    }
}

/// Executable form of `ts_le` with the arguments swapped.
pub fn ts_ge_exec(a: &HlcTimestamp, b: &HlcTimestamp) -> (r: bool)
    ensures
        r == ts_le(*b, *a),
{
    !ts_lt_exec(a, b)
}

/// The timestamps issued by a clock that starts with `last` issued and reads
/// the given physical samples one by one.
pub open spec fn run_clock(last: HlcTimestamp, samples: Seq<(i64, i64)>) -> Seq<HlcTimestamp>
    decreases samples.len(),
{
    if samples.len() == 0 {
        Seq::empty()
    } else {
        let t = tick_spec(last, samples[0].0, samples[0].1);
        seq![t] + run_clock(t, samples.drop_first())
    }
}

/// Local monotonicity of the clock: as long as the physical samples a clock
/// reads never run backwards, and the first of them is at or ahead of the
/// physical pair the clock holds, every issued timestamp is strictly greater
/// than the one before it, and the first is strictly greater than the held
/// timestamp.
pub proof fn lemma_hlc_monotonic(last: HlcTimestamp, samples: Seq<(i64, i64)>)
    requires
        0 <= last.counter,
        last.counter + samples.len() <= i64::MAX,
        samples.len() > 0 ==> pair_le(last, samples[0].0, samples[0].1),
        forall|k: int| 0 <= k < samples.len() - 1 ==> #[trigger] sample_le(samples[k], samples[k + 1]),
    ensures
        run_clock(last, samples).len() == samples.len(),
        samples.len() > 0 ==> ts_lt(last, run_clock(last, samples)[0]),
        forall|k: int|
            0 <= k < samples.len() - 1 ==> #[trigger] ts_lt(
                run_clock(last, samples)[k],
                run_clock(last, samples)[k + 1],
            ),
    decreases samples.len(),
{
    if samples.len() > 0 {
        let t = tick_spec(last, samples[0].0, samples[0].1);
        let rest = samples.drop_first();
        if same_pair(last, samples[0].0, samples[0].1) {
            assert(last.counter + 1 <= i64::MAX);
            assert(t.counter == last.counter + 1);
        }
        assert(ts_lt(last, t));
        assert(t.sec == samples[0].0 && t.nsec == samples[0].1);
        assert(0 <= t.counter && t.counter + rest.len() <= i64::MAX);
        assert forall|k: int| 0 <= k < rest.len() - 1 implies #[trigger] sample_le(
            rest[k],
            rest[k + 1],
        ) by {
            assert(rest[k] == samples[k + 1]);
            assert(rest[k + 1] == samples[k + 2]);
        }
        if rest.len() > 0 {
            assert(rest[0] == samples[1]);
            assert(sample_le(samples[0], samples[1]));
            assert(pair_le(t, rest[0].0, rest[0].1));
        }
        lemma_hlc_monotonic(t, rest);
        let outs = run_clock(last, samples);
        let outs_rest = run_clock(t, rest);
        assert(outs == seq![t] + outs_rest);
        assert forall|k: int| 0 <= k < samples.len() - 1 implies #[trigger] ts_lt(
            outs[k],
            outs[k + 1],
        ) by {
            if k == 0 {
                if rest.len() > 0 {
                    assert(outs[0] == t);
                    assert(outs[1] == outs_rest[0]);
                    assert(ts_lt(t, outs_rest[0]));
                }
            } else {
                let j = k - 1;
                assert(outs[k] == outs_rest[j]);
                assert(outs[k + 1] == outs_rest[j + 1]);
                assert(ts_lt(outs_rest[j], outs_rest[j + 1]));
            }
        }
    }
}

/// A merge never moves a clock backwards: whatever timestamp the remote
/// holds, the merged timestamp is at or ahead of the local one.
pub proof fn lemma_merge_no_regression(local: HlcTimestamp, remote: HlcTimestamp)
    requires
        remote.counter < i64::MAX,
    ensures
        ts_le(local, merge_spec(local, remote)),
{
}

/// A merge against a remote at or behind the local clock changes nothing.
pub proof fn lemma_merge_noop_when_ahead(local: HlcTimestamp, remote: HlcTimestamp)
    requires
        ts_le(remote, local),
    ensures
        merge_spec(local, remote) == local,
{
}

} // verus!
