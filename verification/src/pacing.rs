//! When the loop may scan the whole heap again.
//!
//! A scan costs eighty MiB read and blocks the loop, so a failure buys a
//! wait. A heap that grows by several MiB is the SWF creating its objects, and
//! that cancels the wait.
use vstd::prelude::*;

verus! {

/// Ticks to wait after the first scan that finds nothing.
pub const MIN_WAIT: u32 = 20;
/// The ceiling on that wait. About one second, at sixty ticks per second.
pub const MAX_WAIT: u32 = 60;
/// Heap growth that cancels a wait, in bytes.
pub const GROWTH: u64 = 0x40_0000;

/// What the loop knows about its own scanning.
pub struct Pacing {
    /// Ticks left before a scan is allowed again.
    wait: u32,
    /// The wait the next failure will set.
    next_wait: u32,
    /// The size of the heap at the last scan.
    heap: u64,
    /// Is a game held since it was found?
    holds_a_game: bool,
}

/// What a `Pacing` holds.
pub ghost struct PacingView {
    pub wait: u32,
    pub next_wait: u32,
    pub heap: u64,
    pub holds_a_game: bool,
}

impl View for Pacing {
    type V = PacingView;

    closed spec fn view(&self) -> PacingView {
        PacingView {
            wait: self.wait,
            next_wait: self.next_wait,
            heap: self.heap,
            holds_a_game: self.holds_a_game,
        }
    }
}

impl PacingView {
    /// The wait stays between its floor and its ceiling.
    pub open spec fn wf(self) -> bool {
        &&& self.wait <= MAX_WAIT
        &&& MIN_WAIT <= self.next_wait <= MAX_WAIT
    }

    /// A scan is allowed, and the heap it saw is remembered.
    pub open spec fn scanned(self, heap: u64) -> PacingView {
        PacingView { heap, ..self }
    }

    /// A scan is refused, and the wait is one tick shorter.
    pub open spec fn waited(self) -> PacingView {
        PacingView { wait: (self.wait - 1) as u32, ..self }
    }

    /// A scan found nothing: wait, and twice as long the next time, up to the
    /// ceiling.
    pub open spec fn failed(self) -> PacingView {
        PacingView {
            wait: self.next_wait,
            next_wait: if 2 * self.next_wait < MAX_WAIT {
                (2 * self.next_wait) as u32
            } else {
                MAX_WAIT
            },
            ..self
        }
    }

    /// A game is held.
    pub open spec fn found(self) -> PacingView {
        PacingView { next_wait: MIN_WAIT, holds_a_game: true, ..self }
    }

    /// The resolution was dropped.
    pub open spec fn lost(self) -> PacingView {
        if self.holds_a_game {
            PacingView { holds_a_game: false, wait: 0, next_wait: MIN_WAIT, ..self }
        } else {
            self
        }
    }

    /// Does `may_scan` allow a scan of a heap of `heap` bytes?
    pub open spec fn allows(self, heap: u64) -> bool {
        self.wait == 0 || heap > self.heap + GROWTH
    }

    /// The pacing after `n` refused scans.
    pub open spec fn waited_times(self, n: nat) -> PacingView
        decreases n,
    {
        if n == 0 {
            self
        } else {
            self.waited().waited_times((n - 1) as nat)
        }
    }

    /// A pacing that has scanned nothing yet.
    pub open spec fn initial() -> PacingView {
        PacingView { wait: 0, next_wait: MIN_WAIT, heap: 0, holds_a_game: false }
    }
}

impl Default for Pacing {
    fn default() -> (p: Pacing)
        ensures
            p@ == PacingView::initial(),
    {
        Pacing::new()
    }
}

impl Pacing {
    pub fn new() -> (p: Pacing)
        ensures
            p@ == PacingView::initial(),
            p@.wf(),
    {
        Pacing { wait: 0, next_wait: MIN_WAIT, heap: 0, holds_a_game: false }
    }

    /// May the loop scan the whole heap on this tick?
    ///
    /// `heap` is the committed size of the plugin heap now, in bytes. An
    /// answer of `false` spends one tick of the wait. The first scan waits for
    /// nothing; a heap grown by more than `GROWTH` since the last scan scans at
    /// once, and allocator noise does not.
    pub fn may_scan(&mut self, heap: u64) -> (b: bool)
        requires
            old(self)@.wf(),
        ensures
            final(self)@.wf(),
            b == old(self)@.allows(heap),
            b ==> final(self)@ == old(self)@.scanned(heap),
            !b ==> final(self)@ == old(self)@.waited(),
    {
        // Compared exactly: the heap of the last scan plus `GROWTH` may not
        // fit in 64 bits.
        let grown = heap > self.heap && heap - self.heap > GROWTH;
        if self.wait > 0 && !grown {
            self.wait = self.wait - 1;
            return false;
        }
        self.heap = heap;
        true
    }

    /// The scan found nothing: wait, and wait twice as long the next time, up
    /// to the ceiling.
    pub fn scan_failed(&mut self)
        requires
            old(self)@.wf(),
        ensures
            final(self)@.wf(),
            final(self)@ == old(self)@.failed(),
    {
        self.wait = self.next_wait;
        let doubled = self.next_wait * 2;
        self.next_wait = if doubled < MAX_WAIT {
            doubled
        } else {
            MAX_WAIT
        };
    }

    /// The game is there, whichever path found it: the next wait starts again
    /// at its shortest.
    pub fn game_found(&mut self)
        requires
            old(self)@.wf(),
        ensures
            final(self)@.wf(),
            final(self)@ == old(self)@.found(),
    {
        self.next_wait = MIN_WAIT;
        self.holds_a_game = true;
    }

    /// The resolution was dropped.
    ///
    /// A game lost scans at once, but only a game held can be lost: a
    /// resolution dropped in the menus keeps the wait, and a game lost twice
    /// is lost once.
    pub fn game_lost(&mut self)
        requires
            old(self)@.wf(),
        ensures
            final(self)@.wf(),
            final(self)@ == old(self)@.lost(),
    {
        if !self.holds_a_game {
            return;
        }
        self.holds_a_game = false;
        self.wait = 0;
        self.next_wait = MIN_WAIT;
    }

    /// Ticks left before the next scan. For the trace, and nothing else.
    pub fn wait(&self) -> (w: u32)
        ensures
            w == self@.wait,
    {
        self.wait
    }
}

// -- the laws ------------------------------------------------------------------

/// The first scan waits for nothing, whatever the size of the heap.
pub proof fn the_first_scan_happens_on_the_first_tick(heap: u64)
    ensures
        PacingView::initial().wf(),
        PacingView::initial().wait == 0,
        PacingView::initial().allows(heap),
{
}

/// A game lost is lost once. Losing a game that was held cancels the wait:
/// the next scan happens at once, and a scan that fails after it waits the
/// shortest wait. Losing a resolution while none is held, in the menus,
/// keeps the wait as it is.
pub proof fn a_game_lost_twice_is_lost_once(p: PacingView, heap: u64)
    requires
        p.wf(),
    ensures
        p.lost().lost() == p.lost(),
        p.lost().wf(),
        p.holds_a_game ==> p.lost().wait == 0 && p.lost().allows(heap)
            && p.lost().failed().wait == MIN_WAIT,
        !p.holds_a_game ==> p.lost() == p,
{
}

/// The wait is the number of ticks left before the next scan: while the heap
/// does not grow by more than `GROWTH`, the next `wait` scans are refused,
/// and the one after them is allowed.
pub proof fn the_wait_counts_the_ticks_left(p: PacingView, heap: u64, k: nat)
    requires
        p.wf(),
        heap <= p.heap + GROWTH,
    ensures
        k < p.wait ==> !p.waited_times(k).allows(heap),
        p.waited_times(p.wait as nat).allows(heap),
        k <= p.wait ==> p.waited_times(k).heap == p.heap && p.waited_times(k).wait == p.wait - k,
{
    if k <= p.wait {
        lemma_waited_times(p, k);
    }
    lemma_waited_times(p, p.wait as nat);
}

proof fn lemma_waited_times(p: PacingView, k: nat)
    requires
        k <= p.wait,
    ensures
        p.waited_times(k).heap == p.heap,
        p.waited_times(k).wait == p.wait - k,
    decreases k,
{
    if k > 0 {
        lemma_waited_times(p.waited(), (k - 1) as nat);
    }
}

} // verus!
