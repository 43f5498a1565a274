//! Which Flash player the game runs in.
use vstd::prelude::*;

verus! {

/// A Flash player the autosplitter can read.
#[derive(Copy, Clone, Debug, PartialEq, Eq, Structural)]
pub enum Runtime {
    /// The Pepper Flash plugin, inside EternalTwin.
    PepperFlash,
    /// Ruffle desktop, as Eternalfest Desktop starts it.
    Ruffle,
    /// Ruffle in a Firefox tab: a linear memory at `base`, whose reservation
    /// reaches `span` bytes. Every address the reader asks for is an offset
    /// in it.
    RuffleWeb { base: u64, span: u64 },
}

/// The name of a player, for the log.
pub open spec fn runtime_name(runtime: Runtime) -> Seq<char> {
    match runtime {
        Runtime::PepperFlash => "the Flash plugin of EternalTwin"@,
        Runtime::Ruffle => "Ruffle"@,
        Runtime::RuffleWeb { .. } => "Ruffle in Firefox"@,
    }
}

/// The bytes the ranges cover, in total.
pub open spec fn covered(ranges: Seq<(u64, u64)>) -> int
    decreases ranges.len(),
{
    if ranges.len() == 0 {
        0
    } else {
        covered(ranges.drop_last()) + if ranges.last().0 <= ranges.last().1 {
            ranges.last().1 - ranges.last().0
        } else {
            0
        }
    }
}

impl Runtime {
    /// For the log.
    pub fn name(self) -> (n: &'static str)
        ensures
            n@ == runtime_name(self),
    {
        proof {
            reveal_strlit("the Flash plugin of EternalTwin");
            reveal_strlit("Ruffle");
            reveal_strlit("Ruffle in Firefox");
        }
        match self {
            Runtime::PepperFlash => "the Flash plugin of EternalTwin",
            Runtime::Ruffle => "Ruffle",
            Runtime::RuffleWeb { .. } => "Ruffle in Firefox",
        }
    }

    /// Several Firefox tabs may run Ruffle, and only one plays Hammerfest.
    pub fn is_one_of_several(self) -> (b: bool)
        ensures
            b == self is RuffleWeb,
    {
        match self {
            Runtime::RuffleWeb { .. } => true,
            _ => false,
        }
    }
}

/// Total bytes in the heap ranges of a player, capped at `u64::MAX`.
pub fn heap_size_of(ranges: &[(u64, u64)]) -> (size: u64)
    ensures
        size == (if covered(ranges@) > u64::MAX {
            u64::MAX as int
        } else {
            covered(ranges@)
        }),
{
    let mut total: u64 = 0;
    let mut i: usize = 0;
    while i < ranges.len()
        invariant
            i <= ranges@.len(),
            total == (if covered(ranges@.subrange(0, i as int)) > u64::MAX {
                u64::MAX as int
            } else {
                covered(ranges@.subrange(0, i as int))
            }),
        decreases ranges@.len() - i,
    {
        let (start, end) = ranges[i];
        let span = if start <= end {
            end - start
        } else {
            0
        };
        proof {
            let next = ranges@.subrange(0, i + 1);
            assert(next.drop_last() =~= ranges@.subrange(0, i as int));
            assert(covered(next) >= covered(ranges@.subrange(0, i as int)));
        }
        total = total.saturating_add(span);
        i = i + 1;
    }
    assert(ranges@.subrange(0, ranges@.len() as int) =~= ranges@);
    total
}

} // verus!
