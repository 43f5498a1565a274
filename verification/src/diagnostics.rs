//! What measures, and not what splits.
//!
//! The clock and the printing belong to the host. What is decided from them
//! -- when the memory map is due again, what one resolution attempt cost and
//! where it got to -- is decided here, from the values the host hands in.
use vstd::prelude::*;

use crate::memory::Memory;

verus! {

/// A memory whose reads go through one place, so that the host can count
/// them. It forwards every read unchanged.
pub struct Counted<M>(pub M);

impl<M: Memory> Memory for Counted<M> {
    open spec fn bytes_at(&self, address: int, len: nat) -> Option<Seq<u8>> {
        self.0.bytes_at(address, len)
    }

    fn read_into(&self, address: u64, buf: &mut [u8]) -> (r: Option<()>) {
        self.0.read_into(address, buf)
    }
}

/// Shortest period between two refreshes of the memory map, in microseconds.
pub const MAP_PERIOD_US: u64 = 100_000;
/// The share of the time a refresh may take: one tenth, so a refresh that
/// costs 194 ms is paid once every 1.94 s.
pub const MAP_DUTY: u64 = 10;

/// When the memory map may be read again, after a refresh that started at
/// `started_us` and ended at `ended_us`: never sooner than the period, and
/// never more than a tenth of the time spent on the map.
pub open spec fn next_refresh(started_us: u64, ended_us: u64) -> int {
    let spent = if ended_us >= started_us {
        ended_us - started_us
    } else {
        0
    };
    let wait = if spent * MAP_DUTY > MAP_PERIOD_US {
        spent * MAP_DUTY
    } else {
        MAP_PERIOD_US as int
    };
    if ended_us + wait > u64::MAX {
        u64::MAX as int
    } else {
        ended_us + wait
    }
}

/// A memory map obtained by a new access to the same process, now and then.
pub struct FreshMap {
    next_us: u64,
    ranges: Option<Vec<(u64, u64)>>,
}

impl FreshMap {
    /// The instant from which a refresh is due, and the ranges kept.
    pub closed spec fn next(&self) -> u64 {
        self.next_us
    }

    pub closed spec fn kept(&self) -> Option<Seq<(u64, u64)>> {
        match self.ranges {
            Some(r) => Some(r@),
            None => None,
        }
    }

    pub fn new() -> (f: FreshMap)
        ensures
            f.next() == 0,
            f.kept() is None,
    {
        FreshMap { next_us: 0, ranges: None }
    }

    /// Is a refresh due at `now_us`?
    pub fn due(&self, now_us: u64) -> (b: bool)
        ensures
            b == (now_us >= self.next()),
    {
        now_us >= self.next_us
    }

    /// A refresh that started at `started_us` and ended at `ended_us` gave
    /// these ranges, or nothing when the process could not be reached again.
    pub fn refreshed(&mut self, ranges: Option<Vec<(u64, u64)>>, started_us: u64, ended_us: u64)
        ensures
            final(self).kept() == (match ranges {
                Some(r) => Some(r@),
                None => None,
            }),
            final(self).next() == next_refresh(started_us, ended_us),
    {
        self.ranges = ranges;
        let spent = if ended_us >= started_us {
            ended_us - started_us
        } else {
            0
        };
        if spent > u64::MAX / MAP_DUTY {
            self.next_us = u64::MAX;
            return;
        }
        let scaled = spent * MAP_DUTY;
        let wait = if scaled > MAP_PERIOD_US {
            scaled
        } else {
            MAP_PERIOD_US
        };
        self.next_us = ended_us.saturating_add(wait);
    }

    /// The ranges of the last refresh.
    pub fn ranges(&self) -> (r: Option<&Vec<(u64, u64)>>)
        ensures
            match r {
                Some(v) => self.kept() == Some(v@),
                None => self.kept() is None,
            },
    {
        match &self.ranges {
            Some(v) => Some(v),
            None => None,
        }
    }
}

impl Default for FreshMap {
    fn default() -> (f: FreshMap)
        ensures
            f.next() == 0,
            f.kept() is None,
    {
        FreshMap::new()
    }
}

/// What one resolution attempt cost, and where it had got to.
pub struct ScanTrace {
    /// Bytes read, and reads that failed.
    pub bytes: u64,
    pub failures: u64,
    /// Pauses that were due.
    pub yields: u64,
    /// When the attempt and its stage started, in microseconds.
    pub started: u64,
    pub stage_started: u64,
    pub stage: &'static str,
    pub outcome: &'static str,
}

/// One stage of an attempt, over.
pub struct StageReport {
    pub name: &'static str,
    pub elapsed_us: u64,
    pub requested: u64,
    pub calls: u64,
}

/// An attempt, over.
pub struct Summary {
    pub outcome: &'static str,
    pub elapsed_us: u64,
    pub requested: u64,
    pub read: u64,
    pub calls: u64,
    pub failures: u64,
    pub yields: u64,
}

/// `later - earlier`, or zero when the clock went back.
pub open spec fn elapsed(earlier: u64, later: u64) -> u64 {
    if later >= earlier {
        (later - earlier) as u64
    } else {
        0
    }
}

fn since(earlier: u64, later: u64) -> (e: u64)
    ensures
        e == elapsed(earlier, later),
{
    if later >= earlier {
        later - earlier
    } else {
        0
    }
}

impl ScanTrace {
    /// An attempt that starts at `now_us`: nothing read, the first stage
    /// reads the ranges, and nothing found so far.
    pub fn new(now_us: u64) -> (t: ScanTrace)
        ensures
            t.bytes == 0 && t.failures == 0 && t.yields == 0,
            t.started == now_us && t.stage_started == now_us,
            t.stage@ == "ranges"@,
            t.outcome@ == "not_found"@,
    {
        ScanTrace {
            bytes: 0,
            failures: 0,
            yields: 0,
            started: now_us,
            stage_started: now_us,
            stage: "ranges",
            outcome: "not_found",
        }
    }

    /// A new attempt starts: its clock and its counts start from here.
    pub fn restart(&mut self, now_us: u64)
        ensures
            final(self).bytes == 0 && final(self).failures == 0 && final(self).yields == 0,
            final(self).started == now_us && final(self).stage_started == now_us,
            final(self).stage@ == "ranges"@,
            final(self).outcome@ == "not_found"@,
    {
        *self = ScanTrace::new(now_us);
    }

    /// One block read: its bytes when it succeeded, a failure when not.
    pub fn read(&mut self, bytes: u64, ok: bool)
        ensures
            ok ==> final(self).bytes == (if old(self).bytes + bytes > u64::MAX {
                u64::MAX as int
            } else {
                old(self).bytes + bytes
            }) && final(self).failures == old(self).failures,
            !ok ==> final(self).failures == (if old(self).failures == u64::MAX {
                u64::MAX as int
            } else {
                old(self).failures + 1
            }) && final(self).bytes == old(self).bytes,
            final(self).yields == old(self).yields,
            final(self).stage == old(self).stage && final(self).outcome == old(self).outcome,
            final(self).started == old(self).started,
            final(self).stage_started == old(self).stage_started,
    {
        if ok {
            self.bytes = self.bytes.saturating_add(bytes);
        } else {
            self.failures = self.failures.saturating_add(1);
        }
    }

    /// One pause was due.
    pub fn paused(&mut self)
        ensures
            final(self).yields == (if old(self).yields == u64::MAX {
                u64::MAX as int
            } else {
                old(self).yields + 1
            }),
            final(self).bytes == old(self).bytes && final(self).failures == old(self).failures,
            final(self).stage == old(self).stage && final(self).outcome == old(self).outcome,
            final(self).started == old(self).started,
            final(self).stage_started == old(self).stage_started,
    {
        self.yields = self.yields.saturating_add(1);
    }

    /// The attempt moves on to `next` at `now_us`: the stage that ends, for
    /// the log.
    pub fn stage(&mut self, next: &'static str, requested: u64, calls: u64, now_us: u64) -> (r:
        StageReport)
        ensures
            r.name == old(self).stage,
            r.elapsed_us == elapsed(old(self).stage_started, now_us),
            r.requested == requested && r.calls == calls,
            final(self).stage == next && final(self).stage_started == now_us,
            final(self).bytes == old(self).bytes && final(self).outcome == old(self).outcome,
            final(self).failures == old(self).failures && final(self).yields == old(self).yields,
            final(self).started == old(self).started,
    {
        let report = StageReport {
            name: self.stage,
            elapsed_us: since(self.stage_started, now_us),
            requested,
            calls,
        };
        self.stage = next;
        self.stage_started = now_us;
        report
    }

    /// How the attempt ends.
    pub fn outcome(&mut self, outcome: &'static str)
        ensures
            final(self).outcome == outcome,
            final(self).stage == old(self).stage && final(self).bytes == old(self).bytes,
            final(self).failures == old(self).failures && final(self).yields == old(self).yields,
            final(self).started == old(self).started,
            final(self).stage_started == old(self).stage_started,
    {
        self.outcome = outcome;
    }

    /// The attempt is over, at `now_us`: what it cost.
    pub fn finish(&self, requested: u64, calls: u64, now_us: u64) -> (s: Summary)
        ensures
            s.outcome == self.outcome,
            s.elapsed_us == elapsed(self.started, now_us),
            s.requested == requested && s.calls == calls,
            s.read == self.bytes && s.failures == self.failures && s.yields == self.yields,
    {
        Summary {
            outcome: self.outcome,
            elapsed_us: since(self.started, now_us),
            requested,
            read: self.bytes,
            calls,
            failures: self.failures,
            yields: self.yields,
        }
    }
}

} // verus!
