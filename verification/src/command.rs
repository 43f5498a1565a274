//! What one tick sends the timer, in order.
//!
//! The order is the whole point: `Start` puts the game time back to zero, so a
//! `SetGameTime` before it is lost.
//!
//! The list is a value, so a test reads it. Nothing here knows what LiveSplit
//! is: driving another timer means writing a function that consumes these
//! commands.
use vstd::prelude::*;

use crate::policy::{a_skip_comes_only_with_its_split, Actions, Policy, State, TimerState};

verus! {

/// One order for the timer.
#[derive(Copy, Clone, Debug, PartialEq, Eq, Structural)]
pub enum Command {
    Reset,
    Start,
    Split,
    /// The segment of a level the player never entered. It records no time.
    SkipSplit,
    /// Stop the timer's own game clock. The value we send is absolute.
    PauseGameTime,
    /// Real time since the official start, in milliseconds.
    SetGameTime(i64),
}

/// The most commands one tick can carry.
///
/// One reset, one start, one split, two skips for the longest warp, and the
/// pair that sets the clock.
pub const MAX: usize = 8;

/// The commands of one tick, in the order they must be sent.
#[derive(Copy, Clone, Debug)]
pub struct Commands {
    items: [Option<Command>; 8],
    len: usize,
}

/// `n` skips, one after the other.
pub open spec fn skip_splits(n: nat) -> Seq<Command>
    decreases n,
{
    if n == 0 {
        Seq::empty()
    } else {
        skip_splits((n - 1) as nat).push(Command::SkipSplit)
    }
}

/// The commands a decision becomes, in the order they must be sent: the reset
/// before the start, the skips right after their split, and the clock paused
/// before it is set.
pub open spec fn commands_of(a: Actions) -> Seq<Command> {
    (if a.reset {
        seq![Command::Reset]
    } else {
        Seq::empty()
    }) + (if a.start {
        seq![Command::Start]
    } else {
        Seq::empty()
    }) + (if a.split {
        seq![Command::Split] + skip_splits(a.skips as nat)
    } else {
        Seq::empty()
    }) + (match a.real_time_ms {
        Some(ms) => seq![Command::PauseGameTime, Command::SetGameTime(ms)],
        None => Seq::empty(),
    })
}

pub proof fn lemma_skip_splits_len(n: nat)
    ensures
        skip_splits(n).len() == n,
        forall|i: int| 0 <= i < n ==> #[trigger] skip_splits(n)[i] == Command::SkipSplit,
    decreases n,
{
    if n > 0 {
        lemma_skip_splits_len((n - 1) as nat);
    }
}

impl View for Commands {
    type V = Seq<Command>;

    closed spec fn view(&self) -> Seq<Command> {
        Seq::new(self.len as nat, |i: int| self.items@[i].unwrap())
    }
}

impl Commands {
    /// Every command held is a command, and no more than fit.
    pub closed spec fn wf(&self) -> bool {
        &&& self.len <= MAX
        &&& forall|i: int| 0 <= i < self.len ==> #[trigger] self.items@[i] is Some
    }

    /// No command.
    pub fn empty() -> (c: Commands)
        ensures
            c.wf(),
            c@ == Seq::<Command>::empty(),
    {
        let c = Commands { items: [None, None, None, None, None, None, None, None], len: 0 };
        assert(c@ =~= Seq::<Command>::empty());
        c
    }

    fn push(&mut self, command: Command)
        requires
            old(self).wf(),
            old(self)@.len() < MAX,
        ensures
            final(self).wf(),
            final(self)@ == old(self)@.push(command),
    {
        // A full list would drop an order silently, and the timer would be
        // left in a state nobody decided.
        self.items[self.len] = Some(command);
        self.len = self.len + 1;
        assert(self@ =~= old(self)@.push(command));
    }

    /// The commands, in the order they must be sent.
    pub fn iter(&self) -> (v: Vec<Command>)
        requires
            self.wf(),
        ensures
            v@ == self@,
    {
        let mut v: Vec<Command> = Vec::new();
        let mut i: usize = 0;
        while i < self.len
            invariant
                self.wf(),
                i <= self.len,
                v@ == self@.subrange(0, i as int),
            decreases self.len - i,
        {
            match self.items[i] {
                Some(c) => v.push(c),
                None => {},
            }
            i = i + 1;
            assert(v@ =~= self@.subrange(0, i as int));
        }
        assert(self@.subrange(0, self.len as int) =~= self@);
        v
    }

    pub fn is_empty(&self) -> (b: bool)
        requires
            self.wf(),
        ensures
            b == (self@.len() == 0),
    {
        self.len == 0
    }
}

impl Default for Commands {
    fn default() -> (c: Commands)
        ensures
            c.wf(),
            c@ == Seq::<Command>::empty(),
    {
        Commands::empty()
    }
}

impl Actions {
    /// The commands this decision becomes, in the order they must be sent.
    ///
    /// A tick that decides nothing sends nothing; the reset comes before the
    /// start; the time is set after the start, on a paused clock; the skips
    /// follow their split, and a skip without a split sends nothing.
    pub fn commands(&self) -> (c: Commands)
        requires
            commands_of(*self).len() <= MAX,
        ensures
            c.wf(),
            c@ == commands_of(*self),
    {
        proof {
            lemma_skip_splits_len(self.skips as nat);
        }
        let mut out = Commands::empty();
        if self.reset {
            out.push(Command::Reset);
        }
        if self.start {
            out.push(Command::Start);
        }
        let ghost before_split = out@;
        if self.split {
            out.push(Command::Split);
            let mut k: u8 = 0;
            while k < self.skips
                invariant
                    out.wf(),
                    k <= self.skips,
                    out@ == before_split + seq![Command::Split] + skip_splits(k as nat),
                    before_split.len() + 1 + self.skips + (match self.real_time_ms {
                        Some(_) => 2int,
                        None => 0int,
                    }) <= MAX,
                decreases self.skips - k,
            {
                proof {
                    lemma_skip_splits_len(k as nat);
                }
                out.push(Command::SkipSplit);
                k = k + 1;
                assert(out@ =~= before_split + seq![Command::Split] + skip_splits(k as nat));
            }
        }
        let ghost before_time = out@;
        match self.real_time_ms {
            Some(ms) => {
                out.push(Command::PauseGameTime);
                out.push(Command::SetGameTime(ms));
                assert(out@ =~= before_time + seq![Command::PauseGameTime, Command::SetGameTime(ms)]);
            },
            None => {},
        }
        assert(out@ =~= commands_of(*self));
        out
    }
}

/// Whatever a tick decides, its commands fit in one tick's list.
pub proof fn every_decision_fits_in_one_tick(p: Policy, timer: TimerState, read: Option<State>)
    ensures
        commands_of(p.step(timer, read).1).len() <= MAX,
{
    let a = p.step(timer, read).1;
    a_skip_comes_only_with_its_split(p, timer, read);
    lemma_skip_splits_len(a.skips as nat);
}


/// A skip list holds skips and nothing else.
proof fn lemma_only_skips(n: nat, c: Command)
    requires
        c != Command::SkipSplit,
    ensures
        !skip_splits(n).contains(c),
{
    lemma_skip_splits_len(n);
}

/// Each command comes from its own decision, whatever the others are: a
/// reset is sent exactly when the tick resets, and first; a start exactly
/// when it starts; a split exactly when it splits; and the game time set is
/// the time the tick publishes.
pub proof fn each_command_comes_from_its_decision(a: Actions)
    ensures
        a.reset <==> commands_of(a).contains(Command::Reset),
        a.reset ==> commands_of(a)[0] == Command::Reset,
        a.start <==> commands_of(a).contains(Command::Start),
        a.split <==> commands_of(a).contains(Command::Split),
        forall|ms: i64|
            #![trigger commands_of(a).contains(Command::SetGameTime(ms))]
            commands_of(a).contains(Command::SetGameTime(ms)) <==> a.real_time_ms == Some(ms),
{
    let r: Seq<Command> = if a.reset {
        seq![Command::Reset]
    } else {
        Seq::empty()
    };
    let st: Seq<Command> = if a.start {
        seq![Command::Start]
    } else {
        Seq::empty()
    };
    let sp: Seq<Command> = if a.split {
        seq![Command::Split] + skip_splits(a.skips as nat)
    } else {
        Seq::empty()
    };
    let t: Seq<Command> = match a.real_time_ms {
        Some(ms) => seq![Command::PauseGameTime, Command::SetGameTime(ms)],
        None => Seq::empty(),
    };
    let all = commands_of(a);
    assert(all == r + st + sp + t);
    lemma_skip_splits_len(a.skips as nat);
    lemma_only_skips(a.skips as nat, Command::Reset);
    lemma_only_skips(a.skips as nat, Command::Start);
    lemma_only_skips(a.skips as nat, Command::Split);
    assert forall|c: Command| #[trigger] all.contains(c) <==> (r.contains(c) || st.contains(c)
        || sp.contains(c) || t.contains(c)) by {
        if all.contains(c) {
            let i = choose|i: int| 0 <= i < all.len() && all[i] == c;
            if i < r.len() {
                assert(r[i] == c);
            } else if i < r.len() + st.len() {
                assert(st[i - r.len()] == c);
            } else if i < r.len() + st.len() + sp.len() {
                assert(sp[i - r.len() - st.len()] == c);
            } else {
                assert(t[i - r.len() - st.len() - sp.len()] == c);
            }
        }
        if r.contains(c) {
            let i = choose|i: int| 0 <= i < r.len() && r[i] == c;
            assert(all[i] == c);
        }
        if st.contains(c) {
            let i = choose|i: int| 0 <= i < st.len() && st[i] == c;
            assert(all[r.len() + i] == c);
        }
        if sp.contains(c) {
            let i = choose|i: int| 0 <= i < sp.len() && sp[i] == c;
            assert(all[r.len() + st.len() + i] == c);
        }
        if t.contains(c) {
            let i = choose|i: int| 0 <= i < t.len() && t[i] == c;
            assert(all[r.len() + st.len() + sp.len() + i] == c);
        }
    }
    if a.reset {
        assert(r[0] == Command::Reset);
        assert(all[0] == Command::Reset);
    }
    if a.start {
        assert(st[0] == Command::Start);
    }
    if a.split {
        assert(sp[0] == Command::Split);
        if sp.contains(Command::Split) {
        }
        assert((seq![Command::Split] + skip_splits(a.skips as nat)).contains(Command::Split)) by {
            assert(sp[0] == Command::Split);
        }
    } else {
        assert(!sp.contains(Command::Split));
    }
    if a.split {
        assert forall|c: Command| c != Command::Split && c != Command::SkipSplit implies !sp.contains(c) by {
            lemma_only_skips(a.skips as nat, c);
            if sp.contains(c) {
                let i = choose|i: int| 0 <= i < sp.len() && sp[i] == c;
                if i > 0 {
                    assert(skip_splits(a.skips as nat)[i - 1] == c);
                }
            }
        }
    }
    match a.real_time_ms {
        Some(ms) => {
            assert(t[1] == Command::SetGameTime(ms));
        },
        None => {},
    }
}

} // verus!
