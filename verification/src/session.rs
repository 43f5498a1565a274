//! The decisions of the main loop, one process at a time.
//!
//! Every tick the host asks three things, in this order: is a game held, or
//! does the fast path find one; when it does not, may the whole heap be
//! searched now; and what the game says, what the policy decides of it, and
//! whether the game must be dropped. A long search stops where a pause is
//! due: the host lets one tick pass and resumes it. The host reads the heap
//! ranges, executes the commands and lets the tick pass; everything it is
//! told to do comes from here.
use vstd::prelude::*;

use crate::command::{commands_of, every_decision_fits_in_one_tick, Commands};
use crate::hammerfest::{
    over,
    resolve_via_manager,
    resolved,
    state_read,
    via_manager,
    Anchor,
    AnchorView,
    Game,
    GameView,
    Keys,
    Search,
    Searching,
};
use crate::avm1::Layout;
use crate::level::World;
use crate::memory::Memory;
use crate::pacing::{Pacing, PacingView};
use crate::pepper_flash::Binary;
use crate::policy::{Actions, Policy, State, TimerState};
use crate::scan::SearchLog;

verus! {

/// What one process of the player is read with: what the resolution learned,
/// the game held, when a full search is allowed, and whether the start of
/// the run was announced.
pub struct Session {
    anchor: Anchor,
    game: Option<Game>,
    pacing: Pacing,
    announced: bool,
    search: Option<Search>,
}

/// What a session holds.
pub ghost struct SessionView {
    pub anchor: AnchorView,
    pub game: Option<GameView>,
    pub pacing: PacingView,
    pub announced: bool,
    /// What the search in progress will end with, while one is.
    pub searching: Option<(Option<GameView>, AnchorView, Option<Layout>)>,
}

impl View for Session {
    type V = SessionView;

    closed spec fn view(&self) -> SessionView {
        SessionView {
            anchor: self.anchor@,
            game: match self.game {
                Some(g) => Some(g@),
                None => None,
            },
            pacing: self.pacing@,
            announced: self.announced,
            searching: match self.search {
                Some(s) => Some(s.goal()),
                None => None,
            },
        }
    }
}

impl SessionView {
    /// The parts are each in a state their own operations accept.
    pub open spec fn wf(self) -> bool {
        &&& self.anchor.wf()
        &&& self.pacing.wf()
        &&& self.game matches Some(g) ==> g.layout.wf()
    }
}

/// What one tick of the game says and decides.
pub struct Step {
    /// The state read, and the world of its level, when the game could be
    /// read.
    pub read: Option<(State, World)>,
    /// What the policy decided.
    pub actions: Actions,
    /// The same decision, as the commands to send, in order.
    pub commands: Commands,
    /// The real time already elapsed when the start was dated: said once per
    /// game, on the first tick that publishes a time.
    pub announce_ms: Option<i64>,
}

impl Session {
    /// A new process of the player: nothing learned, no game, no wait.
    pub fn new() -> (s: Session)
        ensures
            s@.wf(),
            s@.game is None,
            s@.pacing == PacingView::initial(),
            !s@.announced,
            s@.searching is None,
    {
        Session {
            anchor: Anchor::default(),
            game: None,
            pacing: Pacing::new(),
            announced: false,
            search: None,
        }
    }

    /// The search in progress can go on: it leads, with the anchor as it
    /// stands and this binary, to what it will end with.
    pub closed spec fn resumable<M: Memory>(
        self,
        mem: &M,
        module: (u64, u64),
        binary: Option<Layout>,
        keys: &Keys,
    ) -> bool {
        self.search matches Some(s) && s.on_track(mem, module, self.anchor@, binary, keys)
    }

    /// How many blocks the pass of the search in progress has read.
    pub closed spec fn blocks_read(self) -> u64 {
        match self.search {
            Some(s) => s.blocks_read(),
            None => 0,
        }
    }

    /// The search is over with `g`: keep the game, and tell the pacing.
    fn search_over(&mut self, g: Option<Game>)
        requires
            old(self)@.pacing.wf(),
        ensures
            final(self)@ == (SessionView {
                game: match g {
                    Some(g) => Some(g@),
                    None => None,
                },
                pacing: if g is Some {
                    old(self)@.pacing.found()
                } else {
                    old(self)@.pacing.failed()
                },
                searching: None,
                ..old(self)@
            }),
    {
        self.game = g;
        self.search = None;
        if self.game.is_none() {
            self.pacing.scan_failed();
        } else {
            self.pacing.game_found();
        }
    }

    /// Is a game held?
    pub fn holds_a_game(&self) -> (b: bool)
        ensures
            b == self@.game is Some,
    {
        self.game.is_some()
    }

    /// The fast path, on every tick: with no game held, follow
    /// `GameManager.current`. Does the loop need the heap for a full search
    /// now?
    pub fn look<M: Memory>(&mut self, mem: &M, keys: &Keys) -> (needs_heap: bool)
        requires
            old(self)@.wf(),
        ensures
            final(self)@.wf(),
            old(self)@.game is Some ==> final(self)@ == old(self)@ && !needs_heap,
            old(self)@.game is None ==> needs_heap == final(self)@.game is None,
            old(self)@.game is None ==> (final(self)@.game, final(self)@.anchor) == via_manager(
                old(self)@.anchor,
                mem,
                keys,
            ),
            old(self)@.game is None ==> final(self)@.pacing == (if final(self)@.game is Some {
                old(self)@.pacing.found()
            } else {
                old(self)@.pacing
            }),
            final(self)@.announced == old(self)@.announced,
            final(self)@.game matches Some(g) ==> g.hints == crate::hammerfest::no_hints()
                || old(self)@.game is Some,
    {
        if self.game.is_some() {
            return false;
        }
        self.game = resolve_via_manager(mem, &mut self.anchor, keys);
        if self.game.is_some() {
            self.pacing.game_found();
            return false;
        }
        true
    }

    /// The full search, on a tick where the fast path found nothing. Says
    /// whether a pause is due -- when the pass in progress has read a
    /// multiple of `CHUNKS_PER_TICK` blocks: the search then goes on with
    /// `resume`, after the host let one tick pass.
    ///
    /// A heap that grows in one step is the SWF creating its objects: the
    /// search runs at once. Otherwise it waits for the pacing. `heap` is the
    /// committed size of the heap now.
    pub fn search<M: Memory, L: SearchLog>(
        &mut self,
        mem: &M,
        module: (u64, u64),
        binary: &mut Binary,
        ranges: &[(u64, u64)],
        heap: u64,
        keys: &Keys,
        log: &mut L,
    ) -> (paused: bool)
        requires
            old(self)@.wf(),
            old(self)@.searching is None,
            old(binary)@ matches Some(l) ==> l.wf(),
        ensures
            final(self)@.wf(),
            final(binary)@ matches Some(l) ==> l.wf(),
            old(self)@.game is Some ==> final(self)@ == old(self)@ && final(binary)@ == old(binary)@
                && !paused,
            final(self)@.game matches Some(g) ==> old(self)@.game is Some
                || crate::hammerfest::proven_game(mem, g, keys),
            paused <==> final(self)@.searching is Some,
            paused ==> final(self).resumable(mem, module, final(binary)@, keys)
                && final(self).blocks_read() % crate::scan::CHUNKS_PER_TICK == 0,
            old(self)@.game is None ==> {
                let may = old(self)@.pacing.allows(heap);
                let goal = resolved(mem, module, old(self)@.anchor, old(binary)@, ranges@, keys);
                &&& !may ==> final(self)@ == (SessionView {
                    pacing: old(self)@.pacing.waited(),
                    ..old(self)@
                }) && final(binary)@ == old(binary)@ && !paused
                &&& may && !paused ==> (final(self)@.game, final(self)@.anchor, final(binary)@)
                    == goal
                &&& may && !paused ==> final(self)@.pacing == (if final(self)@.game is Some {
                    old(self)@.pacing.scanned(heap).found()
                } else {
                    old(self)@.pacing.scanned(heap).failed()
                })
                &&& may && paused ==> final(self)@.searching == Some(goal) && final(self)@.game is None
                    && final(self)@.pacing == old(self)@.pacing.scanned(heap)
                &&& final(self)@.announced == old(self)@.announced
            },
    {
        if self.game.is_some() {
            return false;
        }
        if !self.pacing.may_scan(heap) {
            return false;
        }
        match Search::start(mem, module, &mut self.anchor, binary, ranges, keys, log) {
            Searching::Over(g) => {
                self.search_over(g);
                false
            },
            Searching::Going(s) => {
                self.search = Some(s);
                true
            },
        }
    }

    /// Goes on with the search in progress, after a tick was let pass. Says
    /// whether a pause is due again.
    pub fn resume<M: Memory, L: SearchLog>(
        &mut self,
        mem: &M,
        module: (u64, u64),
        binary: &mut Binary,
        keys: &Keys,
        log: &mut L,
    ) -> (paused: bool)
        requires
            old(self)@.wf(),
            old(self)@.game is None,
            old(self).resumable(mem, module, old(binary)@, keys),
        ensures
            final(self)@.wf(),
            final(binary)@ matches Some(l) ==> l.wf(),
            final(self)@.announced == old(self)@.announced,
            paused <==> final(self)@.searching is Some,
            paused ==> final(self).resumable(mem, module, final(binary)@, keys) && final(self).blocks_read()
                % crate::scan::CHUNKS_PER_TICK == 0 && final(self)@.searching == old(self)@.searching && final(self)@.game is None && final(self)@.pacing
                == old(self)@.pacing,
            !paused ==> Some((final(self)@.game, final(self)@.anchor, final(binary)@))
                == old(self)@.searching,
            !paused ==> final(self)@.pacing == (if final(self)@.game is Some {
                old(self)@.pacing.found()
            } else {
                old(self)@.pacing.failed()
            }),
            final(self)@.game matches Some(g) ==> crate::hammerfest::proven_game(mem, g, keys),
    {
        let search = match self.search.take() {
            Some(s) => s,
            None => {
                return false;
            },
        };
        match search.step(mem, module, &mut self.anchor, binary, keys, log) {
            Searching::Over(g) => {
                self.search_over(g);
                false
            },
            Searching::Going(s) => {
                self.search = Some(s);
                true
            },
        }
    }

    /// One tick of the game: read it, let the policy decide, and drop the
    /// game when the policy says so. A losing game almost always announces
    /// the next one, so the next search runs with no wait.
    pub fn step<M: Memory>(
        &mut self,
        mem: &M,
        keys: &Keys,
        policy: &mut Policy,
        timer: TimerState,
    ) -> (r: Step)
        requires
            old(self)@.wf(),
        ensures
            final(self)@.wf(),
            r.commands.wf(),
            r.commands@ == commands_of(r.actions),
            (*final(policy), r.actions) == old(policy).step(
                timer,
                match r.read {
                    Some((s, _)) => Some(s),
                    None => None,
                },
            ),
            r.read == (match old(self)@.game {
                Some(g) => state_read(g, mem, keys).0,
                None => None,
            }),
            final(self)@.game == (if r.actions.drop_resolution {
                None
            } else {
                match old(self)@.game {
                    Some(g) => Some(GameView { hints: state_read(g, mem, keys).1, ..g }),
                    None => None,
                }
            }),
            final(self)@.anchor == old(self)@.anchor,
            final(self)@.pacing == (if r.actions.drop_resolution {
                old(self)@.pacing.lost()
            } else {
                old(self)@.pacing
            }),
            r.announce_ms == (if r.actions.real_time_ms is Some && !old(self)@.announced {
                r.actions.real_time_ms
            } else {
                None
            }),
            final(self)@.announced == r.actions.real_time_ms is Some,
    {
        let read = match &mut self.game {
            Some(game) => game.read(mem, keys),
            None => None,
        };
        let state = match read {
            Some((s, _)) => Some(s),
            None => None,
        };
        proof {
            every_decision_fits_in_one_tick(*old(policy), timer, state);
        }
        let actions = policy.tick(timer, state);
        let commands = actions.commands();
        let announce_ms = match actions.real_time_ms {
            Some(ms) => if !self.announced {
                self.announced = true;
                Some(ms)
            } else {
                None
            },
            None => {
                self.announced = false;
                None
            },
        };
        if actions.drop_resolution {
            self.game = None;
            self.pacing.game_lost();
        }
        Step { read, actions, commands, announce_ms }
    }
}

} // verus!
