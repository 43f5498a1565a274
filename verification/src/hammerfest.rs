//! The Hammerfest state inside a Flash heap.
//!
//! No static pointer path leads to these values. They are not C variables but
//! properties of ActionScript 2 objects, created at run time by a downloaded
//! SWF, under obfuscated names. Everything follows from one object, the
//! `GameMode`:
//!
//! ```text
//! GameMode.world              -> GameMechanics
//!   .setName                  -> a known Hammerfest world      check
//!   .currentId                -> the level
//! GameMode.gameChrono         -> fl_stop ? haltedTimer : frameTimer-gameTimer
//! ```
use vstd::prelude::*;

use crate::avm1::{linux_profile, windows_profile, Layout, Profile};
use crate::end_sequence::EndSequence;
use crate::heap::{whole_of, Number, Object, Slot, Value};
use crate::level::{world_named, World};
use crate::memory::{qword_at, Memory};
use crate::pepper_flash::{
    atom_value,
    string_cache_of,
    string_found,
    unbased,
    Binary,
    Finding,
    PepperFlashHeap,
};
use crate::scan::{
    Progress,
    first_in_block,
    first_in_sweep,
    lemma_first_in_block_next,
    lemma_first_in_sweep_step,
    move_region_first,
    qword_in,
    region_first,
    sweep_blocks,
    Scan,
    SearchLog,
    Sweep,
};
use crate::policy::{cycles_ms, duration_ms, State};

verus! {

/// The highest level number, plus one.
pub const MAX_LEVEL: i64 = 256;

/// The obfuscated names of the properties the reader follows, and the
/// obfuscated `setName` of each world with its clear name.
///
/// The SWF renames every property; the names come from the map of the build
/// the runner plays.
pub struct Keys {
    /// `GameMode.world`.
    pub world: String,
    /// `GameManager.current`, and `SetManager.current`.
    pub current: String,
    /// `GameMechanics.setName`.
    pub set_name: String,
    /// `GameMechanics.currentId`.
    pub current_id: String,
    /// `SetManager._previousId`.
    pub previous_id: String,
    /// `Mode.manager`.
    pub manager: String,
    /// `GameMode.gameChrono`.
    pub game_chrono: String,
    /// `Chrono.frameTimer`.
    pub frame_timer: String,
    /// `Chrono.gameTimer`.
    pub game_timer: String,
    /// `Chrono.haltedTimer`.
    pub halted_timer: String,
    /// `Chrono.fl_stop`.
    pub fl_stop: String,
    /// `GameMode.fl_gameOver`.
    pub fl_game_over: String,
    /// `GameMode.fl_lock`.
    pub fl_lock: String,
    /// `GameMode.duration`.
    pub duration: String,
    /// `GameMode.currentDim`.
    pub current_dim: String,
    /// `GameMode.endModeTimer`.
    pub end_mode_timer: String,
    /// `GameManager.fVersion`.
    pub f_version: String,
    /// The obfuscated `setName` of each world, and its clear name.
    pub worlds: Vec<(String, String)>,
}

/// The worlds of `keys`, as text: obfuscated name, clear name.
pub open spec fn world_table(keys: &Keys) -> Seq<(Seq<char>, Seq<char>)> {
    keys.worlds@.map_values(|p: (String, String)| (p.0@, p.1@))
}

// -- what a property holds -------------------------------------------------------

/// What `PepperFlashHeap::property` answers with the slot `slot`, and the
/// slot it leaves.
#[verifier::opaque]
pub open spec fn read_prop<M: Memory>(
    l: Layout,
    mem: &M,
    object: u64,
    key: Seq<char>,
    slot: Slot,
) -> (Option<Value>, Slot) {
    let (atom, hint) = l.lookup(mem, object, key, slot.0);
    (
        match atom {
            Some(a) => atom_value(mem, a),
            None => None,
        },
        Slot(hint),
    )
}

/// What a property holds, read from scratch.
pub open spec fn prop<M: Memory>(l: Layout, mem: &M, object: u64, key: Seq<char>) -> Option<
    Value,
> {
    read_prop(l, mem, object, key, Slot(0)).0
}

/// The whole number a property holds.
pub open spec fn whole(v: Option<Value>) -> Option<i64> {
    match v {
        Some(Value::Number(n)) => whole_of(n),
        _ => None,
    }
}

/// The boolean a property holds.
pub open spec fn flag(v: Option<Value>) -> Option<bool> {
    match v {
        Some(Value::Bool(b)) => Some(b),
        _ => None,
    }
}

/// The number a property holds.
pub open spec fn number(v: Option<Value>) -> Option<Number> {
    match v {
        Some(Value::Number(n)) => Some(n),
        _ => None,
    }
}

/// The object reference a property holds.
pub open spec fn object_ref(v: Option<Value>) -> Option<u64> {
    match v {
        Some(Value::Object(r)) => Some(r.0),
        _ => None,
    }
}

/// The string reference a property holds.
pub open spec fn string_ref(v: Option<Value>) -> Option<u64> {
    match v {
        Some(Value::String(s)) => Some(s.0),
        _ => None,
    }
}

/// The object a property leads to.
pub open spec fn child_of<M: Memory>(l: Layout, mem: &M, object: u64, key: Seq<char>) -> Option<
    u64,
> {
    match object_ref(prop(l, mem, object, key)) {
        Some(r) => l.table_of_atom(mem, r),
        None => None,
    }
}

/// The clear name of the first world, from `i` on, whose obfuscated
/// `setName` the string at `s` is.
pub open spec fn set_named<M: Memory>(
    l: Layout,
    mem: &M,
    s: u64,
    worlds: Seq<(Seq<char>, Seq<char>)>,
    i: int,
) -> Option<Seq<char>>
    decreases worlds.len() - i,
{
    if i < 0 || i >= worlds.len() {
        None
    } else if l.is_string(mem, s, worlds[i].0) {
        Some(worlds[i].1)
    } else {
        set_named(l, mem, s, worlds, i + 1)
    }
}

// -- the game ---------------------------------------------------------------------

/// Where each property sat at the last read, always checked again.
#[derive(Copy, Clone, Debug, PartialEq, Eq, Structural)]
pub struct Hints {
    pub world: Slot,
    pub chrono: Slot,
    pub current_id: Slot,
    pub previous_id: Slot,
    pub set_name: Slot,
    pub dim: Slot,
    pub game_over: Slot,
    pub frame: Slot,
    pub game: Slot,
    pub halted: Slot,
    pub stop: Slot,
    pub lock: Slot,
    pub duration: Slot,
    pub end_mode: Slot,
}

/// No property read yet.
pub open spec fn no_hints() -> Hints {
    Hints {
        world: Slot(0),
        chrono: Slot(0),
        current_id: Slot(0),
        previous_id: Slot(0),
        set_name: Slot(0),
        dim: Slot(0),
        game_over: Slot(0),
        frame: Slot(0),
        game: Slot(0),
        halted: Slot(0),
        stop: Slot(0),
        lock: Slot(0),
        duration: Slot(0),
        end_mode: Slot(0),
    }
}

impl Hints {
    fn none() -> (h: Hints)
        ensures
            h == no_hints(),
    {
        Hints {
            world: Slot(0),
            chrono: Slot(0),
            current_id: Slot(0),
            previous_id: Slot(0),
            set_name: Slot(0),
            dim: Slot(0),
            game_over: Slot(0),
            frame: Slot(0),
            game: Slot(0),
            halted: Slot(0),
            stop: Slot(0),
            lock: Slot(0),
            duration: Slot(0),
            end_mode: Slot(0),
        }
    }
}

/// A game in progress, found in a heap.
pub struct Game {
    heap: PepperFlashHeap,
    /// The property table of the `GameMode`.
    pub game_mode: u64,
    /// The clear name of the world the game was found in.
    pub set: String,
    hints: Hints,
}

/// What a game is: the layout it is read with, its `GameMode`, its world,
/// and where its properties sat.
pub ghost struct GameView {
    pub layout: Layout,
    pub game_mode: u64,
    pub set: Seq<char>,
    pub hints: Hints,
}

impl View for Game {
    type V = GameView;

    closed spec fn view(&self) -> GameView {
        GameView { layout: self.heap@, game_mode: self.game_mode, set: self.set@, hints: self.hints }
    }
}

/// Is the table at `tbl`, read with `l`, the `GameMode` of a game in
/// progress? Then the layout that reads it -- with the `ScriptObject ->
/// table` offset derived on the way -- and the clear name of its world.
///
/// `world` alone is not enough: `View` objects carry one too, and they point
/// at the same `GameMechanics`. The proof is the `manager` back-pointer: the
/// manager names one mode, the one that runs. A mode that names no manager is
/// kept on weaker evidence: it owns a `gameChrono`, and a `View` does not. A
/// `GameMode` already in game over is a finished one.
#[verifier::opaque]
pub open spec fn validated<M: Memory>(mem: &M, l: Layout, tbl: u64, keys: &Keys) -> Option<
    (Layout, Seq<char>),
> {
    match object_ref(prop(l, mem, tbl, keys.world@)) {
        None => None,
        Some(w) => {
            let (found, so_tbl) = l.derived_so_tbl(mem, w, keys.set_name@);
            let l2 = Layout { so_tbl, ..l };
            match found {
                None => None,
                Some(world) => match string_ref(prop(l2, mem, world, keys.set_name@)) {
                    None => None,
                    Some(s) => match set_named(l2, mem, s, world_table(keys), 0) {
                        None => None,
                        Some(set) => match whole(prop(l2, mem, world, keys.current_id@)) {
                            Some(level) if 0 <= level < MAX_LEVEL => {
                                let manager_agrees = match child_of(
                                    l2,
                                    mem,
                                    tbl,
                                    keys.manager@,
                                ) {
                                    Some(m) => child_of(l2, mem, m, keys.current@) == Some(tbl),
                                    None => true,
                                };
                                let running = match child_of(l2, mem, tbl, keys.game_chrono@) {
                                    Some(c) => whole(prop(l2, mem, c, keys.frame_timer@)) is Some,
                                    None => false,
                                };
                                let over = flag(prop(l2, mem, tbl, keys.fl_game_over@)) == Some(
                                    true,
                                );
                                if manager_agrees && running && !over {
                                    Some((l2, set))
                                } else {
                                    None
                                }
                            },
                            _ => None,
                        },
                    },
                },
            }
        },
    }
}

/// The object a property leads to, read from scratch.
fn child<M: Memory>(heap: &PepperFlashHeap, mem: &M, object: Object, key: &str) -> (r: Option<
    Object,
>)
    requires
        heap@.wf(),
    ensures
        r == (match child_of(heap@, mem, object.0, key@) {
            Some(t) => Some(Object(t)),
            None => None,
        }),
{
    proof {
        reveal(read_prop);
    }
    let mut slot = Slot(0);
    match heap.property(mem, object, key, &mut slot) {
        Some(Value::Object(reference)) => heap.object(mem, reference),
        _ => None,
    }
}

/// A property read from scratch.
fn property<M: Memory>(heap: &PepperFlashHeap, mem: &M, object: Object, key: &str) -> (r: Option<
    Value,
>)
    requires
        heap@.wf(),
    ensures
        r == prop(heap@, mem, object.0, key@),
{
    proof {
        reveal(read_prop);
    }
    let mut slot = Slot(0);
    heap.property(mem, object, key, &mut slot)
}

/// The clear name of the world whose obfuscated `setName` is the string at
/// `set_name`.
fn world_set<M: Memory>(heap: &PepperFlashHeap, mem: &M, set_name: u64, keys: &Keys) -> (r:
    Option<String>)
    requires
        heap@.wf(),
    ensures
        r matches Some(s) ==> set_named(heap@, mem, set_name, world_table(keys), 0) == Some(s@),
        r is None ==> set_named(heap@, mem, set_name, world_table(keys), 0) is None,
{
    let mut i: usize = 0;
    while i < keys.worlds.len()
        invariant
            heap@.wf(),
            i <= keys.worlds@.len(),
            set_named(heap@, mem, set_name, world_table(keys), 0) == set_named(
                heap@,
                mem,
                set_name,
                world_table(keys),
                i as int,
            ),
        decreases keys.worlds@.len() - i,
    {
        let pair = &keys.worlds[i];
        if heap.string_is(mem, crate::heap::StringReference(set_name), pair.0.as_str()) {
            return Some(pair.1.clone());
        }
        i = i + 1;
    }
    None
}

/// The rules a candidate must pass before it is a game.
pub fn validate<M: Memory>(mem: &M, heap: PepperFlashHeap, tbl: u64, keys: &Keys) -> (r: Option<
    Game,
>)
    requires
        heap@.wf(),
    ensures
        match validated(mem, heap@, tbl, keys) {
            Some((l, set)) => r matches Some(g) && g@ == (GameView {
                layout: l,
                game_mode: tbl,
                set,
                hints: no_hints(),
            }),
            None => r is None,
        },
        r matches Some(g) ==> g@.layout.wf(),
{
    proof {
        reveal(validated);
    }
    let mut heap = heap;
    let game_mode = Object(tbl);
    let world = match property(&heap, mem, game_mode, keys.world.as_str()) {
        Some(Value::Object(w)) => w,
        _ => {
            return None;
        },
    };
    let world = match heap.object_owning(mem, world, keys.set_name.as_str()) {
        Some(w) => w,
        None => {
            return None;
        },
    };
    let set_name = match property(&heap, mem, world, keys.set_name.as_str()) {
        Some(Value::String(s)) => s,
        _ => {
            return None;
        },
    };
    let set = match world_set(&heap, mem, set_name.0, keys) {
        Some(s) => s,
        None => {
            return None;
        },
    };
    let level = match property(&heap, mem, world, keys.current_id.as_str()) {
        Some(v) => match v.as_whole_number() {
            Some(n) => n,
            None => {
                return None;
            },
        },
        None => {
            return None;
        },
    };
    if !(0 <= level && level < MAX_LEVEL) {
        return None;
    }
    if let Some(manager) = child(&heap, mem, game_mode, keys.manager.as_str()) {
        if child(&heap, mem, manager, keys.current.as_str()) != Some(game_mode) {
            return None;
        }
    }
    let chrono = match child(&heap, mem, game_mode, keys.game_chrono.as_str()) {
        Some(c) => c,
        None => {
            return None;
        },
    };
    match property(&heap, mem, chrono, keys.frame_timer.as_str()) {
        Some(v) => if v.as_whole_number().is_none() {
            return None;
        },
        None => {
            return None;
        },
    }
    let over = match property(&heap, mem, game_mode, keys.fl_game_over.as_str()) {
        Some(v) => v.as_bool(),
        None => None,
    };
    if over == Some(true) {
        return None;
    }
    Some(Game { heap, game_mode: tbl, set, hints: Hints::none() })
}


// -- reading ----------------------------------------------------------------------

/// `Chrono.get()` in milliseconds, and the raw `frameTimer`, with the hints
/// the reads leave.
///
/// ```text
/// function get() {
///     if ( fl_stop )  return haltedTimer;
///     else            return Math.floor( frameTimer-gameTimer );
/// }
/// ```
///
/// A difference beyond the range of `i64` is no reading.
pub open spec fn chrono_read<M: Memory>(g: GameView, mem: &M, keys: &Keys) -> (
    Option<(i64, i64)>,
    Hints,
) {
    let l = g.layout;
    let (c, s1) = read_prop(l, mem, g.game_mode, keys.game_chrono@, g.hints.chrono);
    let h1 = Hints { chrono: s1, ..g.hints };
    match object_ref(c) {
        None => (None, h1),
        Some(r) => match l.table_of_atom(mem, r) {
            None => (None, h1),
            Some(chrono) => {
                let (f, s2) = read_prop(l, mem, chrono, keys.frame_timer@, h1.frame);
                let h2 = Hints { frame: s2, ..h1 };
                match whole(f) {
                    None => (None, h2),
                    Some(frame) => {
                        let (st, s3) = read_prop(l, mem, chrono, keys.fl_stop@, h2.stop);
                        let h3 = Hints { stop: s3, ..h2 };
                        let (ht, s4) = read_prop(l, mem, chrono, keys.halted_timer@, h3.halted);
                        let stopped = flag(st) == Some(true);
                        let h4 = if stopped {
                            Hints { halted: s4, ..h3 }
                        } else {
                            h3
                        };
                        if stopped && whole(ht) is Some {
                            (Some((whole(ht)->0, frame)), h4)
                        } else {
                            let (gt, s5) = read_prop(l, mem, chrono, keys.game_timer@, h4.game);
                            let h5 = Hints { game: s5, ..h4 };
                            match whole(gt) {
                                Some(game) => if i64::MIN <= frame - game <= i64::MAX {
                                    (Some(((frame - game) as i64, frame)), h5)
                                } else {
                                    (None, h5)
                                },
                                None => (None, h5),
                            }
                        }
                    },
                }
            },
        },
    }
}

/// The whole number a property holds, or `default`.
pub open spec fn whole_or(v: Option<Value>, default: i64) -> i64 {
    match whole(v) {
        Some(n) => n,
        None => default,
    }
}

/// The end sequence `GameMode.endModeTimer` says: none when it is absent or
/// holds no number.
pub open spec fn end_sequence_of(v: Option<Value>) -> EndSequence {
    match number(v) {
        Some(n) => EndSequence {
            remaining_ms: if cycles_ms(n) > 0 {
                cycles_ms(n)
            } else {
                0
            },
        },
        None => EndSequence { remaining_ms: 0 },
    }
}

/// The state the `GameMode` gives once the clock is read: everything is read
/// again from the `GameMode`, and the world and the level are checked again.
pub open spec fn state_after_chrono<M: Memory>(
    g: GameView,
    mem: &M,
    keys: &Keys,
    chrono_ms: i64,
    frame_timer: i64,
    h: Hints,
) -> (Option<(State, World)>, Hints) {
    let l = g.layout;
    let gm = g.game_mode;
    let (w, s1) = read_prop(l, mem, gm, keys.world@, h.world);
    let h1 = Hints { world: s1, ..h };
    match object_ref(w) {
        None => (None, h1),
        Some(r) => match l.table_of_atom(mem, r) {
            None => (None, h1),
            Some(world) => {
                let (sn, s2) = read_prop(l, mem, world, keys.set_name@, h1.set_name);
                let h2 = Hints { set_name: s2, ..h1 };
                let set = match string_ref(sn) {
                    Some(sref) => match set_named(l, mem, sref, world_table(keys), 0) {
                        Some(clear) => world_named(clear),
                        None => None,
                    },
                    None => None,
                };
                match set {
                    None => (None, h2),
                    Some(set) => {
                        let (lv, s3) = read_prop(l, mem, world, keys.current_id@, h2.current_id);
                        let h3 = Hints { current_id: s3, ..h2 };
                        match whole(lv) {
                            Some(level) if 0 <= level < MAX_LEVEL => {
                                let (pv, s4) = read_prop(
                                    l,
                                    mem,
                                    world,
                                    keys.previous_id@,
                                    h3.previous_id,
                                );
                                let (lk, s5) = read_prop(l, mem, gm, keys.fl_lock@, h3.lock);
                                let (du, s6) = read_prop(l, mem, gm, keys.duration@, h3.duration);
                                let h6 = Hints {
                                    previous_id: s4,
                                    lock: s5,
                                    duration: s6,
                                    ..h3
                                };
                                match number(du) {
                                    None => (None, h6),
                                    Some(d) => {
                                        let (dm, s7) = read_prop(
                                            l,
                                            mem,
                                            gm,
                                            keys.current_dim@,
                                            h6.dim,
                                        );
                                        let (go, s8) = read_prop(
                                            l,
                                            mem,
                                            gm,
                                            keys.fl_game_over@,
                                            h6.game_over,
                                        );
                                        let (em, s9) = read_prop(
                                            l,
                                            mem,
                                            gm,
                                            keys.end_mode_timer@,
                                            h6.end_mode,
                                        );
                                        let h9 = Hints {
                                            dim: s7,
                                            game_over: s8,
                                            end_mode: s9,
                                            ..h6
                                        };
                                        (
                                            Some(
                                                (
                                                    State {
                                                        level,
                                                        previous: whole_or(pv, -1i64),
                                                        chrono_ms,
                                                        frame_timer,
                                                        dim: whole_or(dm, 0i64),
                                                        game_over: flag(go) == Some(true),
                                                        locked: flag(lk) == Some(true),
                                                        duration_ms: cycles_ms(d),
                                                        end_sequence: end_sequence_of(em),
                                                    },
                                                    set,
                                                ),
                                            ),
                                            h9,
                                        )
                                    },
                                }
                            },
                            _ => (None, h3),
                        }
                    },
                }
            },
        },
    }
}

/// What `Game::read` gives, and the hints it leaves.
pub open spec fn state_read<M: Memory>(g: GameView, mem: &M, keys: &Keys) -> (
    Option<(State, World)>,
    Hints,
) {
    let (c, h) = chrono_read(g, mem, keys);
    match c {
        None => (None, h),
        Some((chrono_ms, frame_timer)) => state_after_chrono(
            g,
            mem,
            keys,
            chrono_ms,
            frame_timer,
            h,
        ),
    }
}

/// A property read with a hint: the value, and the hint to keep.
fn hinted<M: Memory>(heap: &PepperFlashHeap, mem: &M, object: Object, key: &str, slot: Slot) -> (r: (
    Option<Value>,
    Slot,
))
    requires
        heap@.wf(),
    ensures
        r == read_prop(heap@, mem, object.0, key@, slot),
{
    proof {
        reveal(read_prop);
    }
    let mut s = slot;
    let v = heap.property(mem, object, key, &mut s);
    (v, s)
}

fn whole_value(v: Option<Value>) -> (r: Option<i64>)
    ensures
        r == whole(v),
{
    match v {
        Some(value) => value.as_whole_number(),
        None => None,
    }
}

fn flag_value(v: Option<Value>) -> (r: Option<bool>)
    ensures
        r == flag(v),
{
    match v {
        Some(value) => value.as_bool(),
        None => None,
    }
}

impl Game {
    /// The layout the game is read with.
    pub fn heap(&self) -> (h: PepperFlashHeap)
        ensures
            h@ == self@.layout,
    {
        self.heap
    }

    /// `Chrono.get()` in milliseconds, and the raw `frameTimer`.
    fn chrono<M: Memory>(&mut self, mem: &M, keys: &Keys) -> (r: Option<(i64, i64)>)
        requires
            old(self)@.layout.wf(),
        ensures
            (r, final(self)@.hints) == chrono_read(old(self)@, mem, keys),
            final(self)@ == (GameView { hints: final(self)@.hints, ..old(self)@ }),
    {
        let heap = self.heap;
        let gm = Object(self.game_mode);
        let (c, s1) = hinted(&heap, mem, gm, keys.game_chrono.as_str(), self.hints.chrono);
        self.hints.chrono = s1;
        let chrono = match c {
            Some(Value::Object(r)) => match heap.object(mem, r) {
                Some(o) => o,
                None => {
                    return None;
                },
            },
            _ => {
                return None;
            },
        };
        let (f, s2) = hinted(&heap, mem, chrono, keys.frame_timer.as_str(), self.hints.frame);
        self.hints.frame = s2;
        let frame = match whole_value(f) {
            Some(n) => n,
            None => {
                return None;
            },
        };
        let (st, s3) = hinted(&heap, mem, chrono, keys.fl_stop.as_str(), self.hints.stop);
        self.hints.stop = s3;
        if flag_value(st) == Some(true) {
            let (ht, s4) = hinted(&heap, mem, chrono, keys.halted_timer.as_str(), self.hints.halted);
            self.hints.halted = s4;
            if let Some(halted) = whole_value(ht) {
                return Some((halted, frame));
            }
        }
        let (gt, s5) = hinted(&heap, mem, chrono, keys.game_timer.as_str(), self.hints.game);
        self.hints.game = s5;
        match whole_value(gt) {
            Some(game) => match frame.checked_sub(game) {
                Some(d) => Some((d, frame)),
                None => None,
            },
            None => None,
        }
    }

    /// The current state, and the world whose numbering its level belongs
    /// to, or `None` if the resolution is no longer valid.
    ///
    /// Everything is read again from `GameMode` on every call. Keeping the
    /// final address would be dangerous: the game rebuilds its objects between
    /// two games, and the abandoned slot stays readable, holding a plausible
    /// value. The world and the level are checked again here, and not only
    /// when the game is found, because memory is recycled.
    pub fn read<M: Memory>(&mut self, mem: &M, keys: &Keys) -> (r: Option<(State, World)>)
        requires
            old(self)@.layout.wf(),
        ensures
            (r, final(self)@.hints) == state_read(old(self)@, mem, keys),
            final(self)@ == (GameView { hints: final(self)@.hints, ..old(self)@ }),
    {
        let (chrono_ms, frame_timer) = match self.chrono(mem, keys) {
            Some(c) => c,
            None => {
                return None;
            },
        };
        let heap = self.heap;
        let gm = Object(self.game_mode);
        let (w, s1) = hinted(&heap, mem, gm, keys.world.as_str(), self.hints.world);
        self.hints.world = s1;
        let world = match w {
            Some(Value::Object(r)) => match heap.object(mem, r) {
                Some(o) => o,
                None => {
                    return None;
                },
            },
            _ => {
                return None;
            },
        };
        let (sn, s2) = hinted(&heap, mem, world, keys.set_name.as_str(), self.hints.set_name);
        self.hints.set_name = s2;
        let set = match sn {
            Some(Value::String(sref)) => match world_set(&heap, mem, sref.0, keys) {
                Some(clear) => World::from_set_name(clear.as_str()),
                None => None,
            },
            _ => None,
        };
        let set = match set {
            Some(w) => w,
            None => {
                return None;
            },
        };
        let (lv, s3) = hinted(&heap, mem, world, keys.current_id.as_str(), self.hints.current_id);
        self.hints.current_id = s3;
        let level = match whole_value(lv) {
            Some(n) => n,
            None => {
                return None;
            },
        };
        if !(0 <= level && level < MAX_LEVEL) {
            return None;
        }
        let (pv, s4) = hinted(&heap, mem, world, keys.previous_id.as_str(), self.hints.previous_id);
        self.hints.previous_id = s4;
        let previous = match whole_value(pv) {
            Some(p) => p,
            None => -1,
        };
        // `fl_lock` is true during the black screen before level 0. Its fall
        // is the official start of the run.
        let (lk, s5) = hinted(&heap, mem, gm, keys.fl_lock.as_str(), self.hints.lock);
        self.hints.lock = s5;
        let locked = flag_value(lk) == Some(true);
        // Required, like the level and the clock: this is what dates the start
        // of the run. Reading it as zero by default would set the origin at
        // the instant of the resolution, so a timer short by all the delay of
        // the scan -- and silently so.
        let (du, s6) = hinted(&heap, mem, gm, keys.duration.as_str(), self.hints.duration);
        self.hints.duration = s6;
        let duration = match du {
            Some(Value::Number(n)) => n,
            _ => {
                return None;
            },
        };
        let (dm, s7) = hinted(&heap, mem, gm, keys.current_dim.as_str(), self.hints.dim);
        self.hints.dim = s7;
        let dim = match whole_value(dm) {
            Some(d) => d,
            None => 0,
        };
        let (go, s8) = hinted(&heap, mem, gm, keys.fl_game_over.as_str(), self.hints.game_over);
        self.hints.game_over = s8;
        let game_over = flag_value(go) == Some(true);
        // The end of the run. `GameMode.endModeTimer` is a Float that the
        // elevator script raises to fourteen seconds of cycles. Absent or
        // unreadable, the sequence has not started: a run that does not end
        // by itself is a nuisance; a run that ends by accident is a lost run.
        let (em, s9) = hinted(&heap, mem, gm, keys.end_mode_timer.as_str(), self.hints.end_mode);
        self.hints.end_mode = s9;
        let end_sequence = match em {
            Some(Value::Number(n)) => EndSequence::from_cycles(n),
            _ => EndSequence::from_remaining_ms(0),
        };
        Some(
            (
                State {
                    level,
                    previous,
                    chrono_ms,
                    frame_timer,
                    dim,
                    game_over,
                    locked,
                    duration_ms: duration_ms(duration),
                    end_sequence,
                },
                set,
            ),
        )
    }
}


// -- resolution -------------------------------------------------------------------

/// What one resolution learns and the next ones reuse.
///
/// Nothing here is the address of a game object -- that would be the trap. The
/// two addresses kept belong to objects that live as long as the SWF: the
/// interned string of a key, and the `GameManager` table. They are checked
/// again before every use, and the anchor is cleared for every new plugin
/// process.
pub struct Anchor {
    /// The String objects of the anchor keys, interned by the SWF.
    string_world: Option<u64>,
    string_version: Option<u64>,
    /// The property table of the `GameManager`, and the layout that goes with
    /// it. `GameManager` is born with the SWF and points at the mode that
    /// runs: finding it during the menus means we never scan again.
    manager: Option<u64>,
    layout: Option<Layout>,
    current_hint: Slot,
    /// Has the anchor ever delivered a game? While it has not, the fallback
    /// scan stays allowed, but only after a long silence.
    manager_proven: bool,
    /// Failed attempts since the anchor was set.
    manager_idle: u32,
    /// The region where the last GameMode was found. It is scanned first.
    last_game_mode: Option<u64>,
    /// The regions seen at the last scan, bounds included. Anything not in
    /// this list is new: that is where the SWF objects are born.
    regions: Vec<(u64, u64)>,
    /// Attempts since the last full scan.
    sweeps: u32,
}

/// What an anchor holds.
pub ghost struct AnchorView {
    pub string_world: Option<u64>,
    pub string_version: Option<u64>,
    pub manager: Option<u64>,
    pub layout: Option<Layout>,
    pub current_hint: Slot,
    pub manager_proven: bool,
    pub manager_idle: u32,
    pub last_game_mode: Option<u64>,
    pub regions: Seq<(u64, u64)>,
    pub sweeps: u32,
}

impl View for Anchor {
    type V = AnchorView;

    closed spec fn view(&self) -> AnchorView {
        AnchorView {
            string_world: self.string_world,
            string_version: self.string_version,
            manager: self.manager,
            layout: self.layout,
            current_hint: self.current_hint,
            manager_proven: self.manager_proven,
            manager_idle: self.manager_idle,
            last_game_mode: self.last_game_mode,
            regions: self.regions@,
            sweeps: self.sweeps,
        }
    }
}

/// An anchor that has learned nothing.
pub open spec fn fresh_anchor() -> AnchorView {
    AnchorView {
        string_world: None,
        string_version: None,
        manager: None,
        layout: None,
        current_hint: Slot(0),
        manager_proven: false,
        manager_idle: 0,
        last_game_mode: None,
        regions: Seq::empty(),
        sweeps: 0,
    }
}

impl AnchorView {
    /// A layout kept is one the reader can read with.
    pub open spec fn wf(self) -> bool {
        self.layout matches Some(l) ==> l.wf()
    }
}

impl Default for Anchor {
    fn default() -> (a: Anchor)
        ensures
            a@ == fresh_anchor(),
    {
        Anchor {
            string_world: None,
            string_version: None,
            manager: None,
            layout: None,
            current_hint: Slot(0),
            manager_proven: false,
            manager_idle: 0,
            last_game_mode: None,
            regions: Vec::new(),
            sweeps: 0,
        }
    }
}

impl Anchor {
    /// Addresses learned in one process mean nothing in the next one: ASLR
    /// moves them, and the AVM1 heap is built again.
    pub fn reset(&mut self)
        ensures
            final(self)@ == fresh_anchor(),
    {
        *self = Anchor::default();
    }
}

/// The game passed the rules of a game, read with some layout.
pub open spec fn proven_game<M: Memory>(mem: &M, g: GameView, keys: &Keys) -> bool {
    exists|l: Layout| validated(mem, l, g.game_mode, keys) == Some((g.layout, g.set))
}

/// What `resolve_via_manager` finds, and the anchor it leaves.
#[verifier::opaque]
pub open spec fn via_manager<M: Memory>(a: AnchorView, mem: &M, keys: &Keys) -> (
    Option<GameView>,
    AnchorView,
) {
    match (a.layout, a.manager) {
        (Some(l), Some(m)) => match qword_at(mem, m as int) {
            None => (None, a),
            Some(vt) => if vt != l.tbl_vt {
                (None, AnchorView { manager: None, ..a })
            } else {
                let (current, hint) = read_prop(l, mem, m, keys.current@, a.current_hint);
                let a1 = AnchorView { current_hint: hint, ..a };
                match current {
                    None => (None, AnchorView { manager: None, ..a1 }),
                    Some(v) => match object_ref(Some(v)) {
                        None => (None, a1),
                        Some(r) => match l.table_of_atom(mem, r) {
                            None => (None, a1),
                            Some(tbl) => match validated(mem, l, tbl, keys) {
                                None => (None, a1),
                                Some((l2, set)) => (
                                    Some(
                                        GameView {
                                            layout: l2,
                                            game_mode: tbl,
                                            set,
                                            hints: no_hints(),
                                        },
                                    ),
                                    AnchorView {
                                        last_game_mode: Some(tbl),
                                        manager_proven: true,
                                        manager_idle: 0,
                                        ..a1
                                    },
                                ),
                            },
                        },
                    },
                }
            },
        },
        _ => (None, a),
    }
}

/// Fast path: follows `GameManager.current`, with no scan at all.
///
/// A few reads, against a hundred MiB. That is what lets us look for the game
/// on every tick. It returns None if the anchor is not learned yet, if the
/// GameManager table moved, or if the current mode is not a playable game --
/// a menu, for example. A table that is no longer the GameManager is
/// dropped, which starts a scan instead of staying blind.
pub fn resolve_via_manager<M: Memory>(mem: &M, anchor: &mut Anchor, keys: &Keys) -> (r: Option<
    Game,
>)
    requires
        old(anchor)@.wf(),
    ensures
        final(anchor)@.wf(),
        r matches Some(g) ==> g@.layout.wf(),
        (match r {
            Some(g) => Some(g@),
            None => None,
        }, final(anchor)@) == via_manager(old(anchor)@, mem, keys),
        r matches Some(g) ==> g@.hints == no_hints() && old(anchor)@.layout is Some && validated(
            mem,
            old(anchor)@.layout->0,
            g@.game_mode,
            keys,
        ) == Some((g@.layout, g@.set)),
{
    proof {
        reveal(via_manager);
    }
    let layout = match anchor.layout {
        Some(l) => l,
        None => {
            return None;
        },
    };
    let heap = PepperFlashHeap::new(layout);
    let manager = match anchor.manager {
        Some(m) => Object(m),
        None => {
            return None;
        },
    };
    match heap.is_object(mem, manager) {
        None => {
            return None;
        },
        Some(false) => {
            anchor.manager = None;
            return None;
        },
        Some(true) => {},
    }
    let (current, hint) = hinted(&heap, mem, manager, keys.current.as_str(), anchor.current_hint);
    anchor.current_hint = hint;
    let current = match current {
        Some(v) => v,
        None => {
            anchor.manager = None;
            return None;
        },
    };
    let reference = match current.as_object() {
        Some(r) => r,
        None => {
            return None;
        },
    };
    let tbl = match heap.object(mem, reference) {
        Some(o) => o.0,
        None => {
            return None;
        },
    };
    let game = match validate(mem, heap, tbl, keys) {
        Some(g) => g,
        None => {
            return None;
        },
    };
    anchor.last_game_mode = Some(tbl);
    anchor.manager_proven = true;
    anchor.manager_idle = 0;
    Some(game)
}


// -- the search -------------------------------------------------------------------

/// Failed attempts allowed before we question an anchor that never gave
/// anything. At about one per second, that leaves a good half minute before
/// the scan starts again.
pub const MANAGER_IDLE_LIMIT: u32 = 30;

/// Attempts with no new region before we read the whole heap again: an
/// object can be born in memory that is already committed, and no new region
/// would signal it.
pub const FULL_SWEEP: u32 = 8;

/// Which object a table that owns the searched key must be.
#[derive(Copy, Clone, Debug, PartialEq, Eq, Structural)]
pub enum Wanted {
    /// The `GameManager`, proven by the cross reference: its `current` mode
    /// names it back as `manager`.
    Manager,
    /// The `GameMode` of a game in progress.
    GameMode,
}

/// The cross reference that proves the `GameManager` at `t`, and derives the
/// `ScriptObject -> table` offset on the way: `GameManager.current` points
/// at a mode whose `manager` field points back at that same table. The
/// layout it leaves.
#[verifier::opaque]
pub open spec fn manager_accepts<M: Memory>(mem: &M, l: Layout, t: u64, keys: &Keys) -> Option<
    Layout,
> {
    match l.lookup(mem, t, keys.current@, 0).0 {
        None => None,
        Some(current) => {
            let (mode, so_tbl) = l.derived_so_tbl(mem, current, keys.manager@);
            let l2 = Layout { so_tbl, ..l };
            match mode {
                None => None,
                Some(m) => match l2.lookup(mem, m, keys.manager@, 0).0 {
                    Some(back) => if l2.table_of_atom(mem, back) == Some(t) {
                        Some(l2)
                    } else {
                        None
                    },
                    None => None,
                },
            }
        },
    }
}

/// Does the table at `t`, read with `l`, pass as the wanted object? Then the
/// layout that reads it.
#[verifier::opaque]
pub open spec fn accepted<M: Memory>(mem: &M, wanted: Wanted, l: Layout, t: u64, keys: &Keys) -> Option<
    Layout,
> {
    match wanted {
        Wanted::Manager => manager_accepts(mem, l, t, keys),
        Wanted::GameMode => if validated(mem, l, t, keys) is Some {
            Some(l)
        } else {
            None
        },
    }
}

/// Some layout reads the table at `t` as the wanted object, and `l` is the
/// layout it leaves.
pub open spec fn passes<M: Memory>(mem: &M, wanted: Wanted, l: Layout, t: u64, keys: &Keys) -> bool {
    exists|l0: Layout| accepted(mem, wanted, l0, t, keys) == Some(l)
}

fn accepts<M: Memory>(mem: &M, wanted: Wanted, layout: Layout, t: u64, keys: &Keys) -> (r: Option<
    Layout,
>)
    requires
        layout.wf(),
    ensures
        r == accepted(mem, wanted, layout, t, keys),
        r matches Some(l) ==> l.wf(),
{
    proof {
        reveal(accepted);
    }
    match wanted {
        Wanted::GameMode => match validate(mem, PepperFlashHeap::new(layout), t, keys) {
            Some(_) => Some(layout),
            None => None,
        },
        Wanted::Manager => {
            proof {
                reveal(manager_accepts);
            }
            let mut l = layout;
            let current = match l.get(mem, t, keys.current.as_str()) {
                Some(c) => c,
                None => {
                    return None;
                },
            };
            let mode = match l.derive_so_tbl(mem, current, keys.manager.as_str()) {
                Some(m) => m,
                None => {
                    return None;
                },
            };
            match l.child(mem, mode, keys.manager.as_str()) {
                Some(back) => if back == t {
                    Some(l)
                } else {
                    None
                },
                None => None,
            }
        },
    }
}

/// The table of a slot that names `key`, read with the profile `p`: a table
/// header must stand in front of the slot, and the table must pass as the
/// wanted object. The layout that reads it, and the table.
pub open spec fn table_with<M: Memory>(
    mem: &M,
    base: Layout,
    p: Profile,
    slot: u64,
    key: Seq<char>,
    wanted: Wanted,
    keys: &Keys,
) -> Option<(Layout, u64)> {
    let layout = Layout { profile: p, tbl_vt: 0, so_tbl: 0, ..base };
    if !layout.names(mem, slot, key) {
        None
    } else {
        match layout.base_from(mem, slot, 0) {
            Some((tbl, vt)) => match accepted(mem, wanted, Layout { tbl_vt: vt, ..layout }, tbl, keys) {
                Some(l) => Some((l, tbl)),
                None => None,
            },
            None => None,
        }
    }
}

/// The table of a slot that names `key`, with the first table geometry that
/// finds one.
pub open spec fn table_of_slot<M: Memory>(
    mem: &M,
    base: Layout,
    slot: u64,
    key: Seq<char>,
    wanted: Wanted,
    keys: &Keys,
) -> Option<(Layout, u64)> {
    match table_with(mem, base, windows_profile(), slot, key, wanted, keys) {
        Some(found) => Some(found),
        None => table_with(mem, base, linux_profile(), slot, key, wanted, keys),
    }
}

/// A qword of a block that cites the String object `strobj`, whatever its
/// tag, in a slot whose table passes as the wanted object.
pub open spec fn citing_table<M: Memory>(
    mem: &M,
    layout: Layout,
    strobj: u64,
    key: Seq<char>,
    wanted: Wanted,
    keys: &Keys,
) -> spec_fn(u64, Seq<u8>, int) -> Option<(Layout, u64)> {
    |b: u64, bytes: Seq<u8>, i: int|
        if qword_in(bytes, i) & !7u64 == strobj {
            table_of_slot(mem, layout, (b + i) as u64, key, wanted, keys)
        } else {
            None
        }
}

/// The table of the slot at `slot`, which must name `key`. Each table
/// geometry in turn: the slot must name the key, a table header must stand
/// in front of it, and the table must pass as the wanted object.
fn table_at<M: Memory>(
    mem: &M,
    base: Layout,
    slot: u64,
    key: &str,
    wanted: Wanted,
    keys: &Keys,
) -> (r: Option<(Layout, u64)>)
    requires
        base.wf(),
    ensures
        r == table_of_slot(mem, base, slot, key@, wanted, keys),
        r matches Some((l, t)) ==> l.wf() && passes(mem, wanted, l, t, keys),
{
    let profiles = crate::avm1::profiles();
    let mut k: usize = 0;
    while k < 2
        invariant
            base.wf(),
            k <= 2,
            profiles@ == seq![crate::avm1::windows_profile(), crate::avm1::linux_profile()],
            table_of_slot(mem, base, slot, key@, wanted, keys) == (if k == 0 {
                table_of_slot(mem, base, slot, key@, wanted, keys)
            } else if k == 1 {
                table_with(mem, base, linux_profile(), slot, key@, wanted, keys)
            } else {
                None
            }),
        decreases 2 - k,
    {
        let mut layout = Layout { profile: profiles[k], tbl_vt: 0, so_tbl: 0, ..base };
        let ghost plain = layout;
        if layout.key_is(mem, slot, key) {
            if let Some(tbl) = layout.table_base(mem, slot) {
                if let Some(l) = accepts(mem, wanted, layout, tbl, keys) {
                    assert(accepted(mem, wanted, layout, tbl, keys) == Some(l));
                    assert(passes(mem, wanted, l, tbl, keys));
                    assert(table_with(mem, base, profiles@[k as int], slot, key@, wanted, keys) == Some((l, tbl)));
                    return Some((l, tbl));
                }
                assert(table_with(mem, base, profiles@[k as int], slot, key@, wanted, keys) is None);
            } else {
                assert(table_with(mem, base, profiles@[k as int], slot, key@, wanted, keys) is None);
            }
        } else {
            assert(table_with(mem, base, profiles@[k as int], slot, key@, wanted, keys) is None);
        }
        k = k + 1;
    }
    None
}

/// The search of `scan_tables`, from where `sweep` stands until a pause is due.
pub fn scan_tables_from<M: Memory, L: SearchLog>(
    mem: &M,
    ranges: &[(u64, u64)],
    layout: Layout,
    strobj: u64,
    key: &str,
    wanted: Wanted,
    keys: &Keys,
    sweep: &mut Sweep,
    cost: &mut Scan,
    log: &mut L,
) -> (r: Progress<(Layout, u64)>)
    requires
        layout.wf(),
        old(sweep).wf(ranges@),
    ensures
        final(sweep).wf(ranges@),
        match r {
            Progress::Found(x) => first_in_sweep(mem, old(sweep).blocks(ranges@), 8, 8, citing_table(mem, layout, strobj, key@, wanted, keys)) == Some(x) && x.0.wf() && passes(mem, wanted, x.0, x.1, keys),
            Progress::Exhausted => first_in_sweep(mem, old(sweep).blocks(ranges@), 8, 8, citing_table(mem, layout, strobj, key@, wanted, keys)) is None,
            Progress::Paused => first_in_sweep(mem, old(sweep).blocks(ranges@), 8, 8, citing_table(mem, layout, strobj, key@, wanted, keys)) == first_in_sweep(mem, final(sweep).blocks(ranges@), 8, 8, citing_table(mem, layout, strobj, key@, wanted, keys))
                && 0 <= final(sweep).left(ranges@) < old(sweep).left(ranges@)
                && final(sweep).blocks_read() % crate::scan::CHUNKS_PER_TICK == 0,
        },
{
    let ghost hit = citing_table(mem, layout, strobj, key@, wanted, keys);
    let ghost answer = first_in_sweep(mem, old(sweep).blocks(ranges@), 8, 8, hit);
    proof {
        sweep.lemma_left(ranges@);
    }
    loop
        invariant
            sweep.wf(ranges@),
            sweep.left(ranges@) >= 0,
            sweep.left(ranges@) <= old(sweep).left(ranges@),
            layout.wf(),
            hit == citing_table(mem, layout, strobj, key@, wanted, keys),
            answer == first_in_sweep(mem, old(sweep).blocks(ranges@), 8, 8, hit),
            answer == first_in_sweep(mem, sweep.blocks(ranges@), 8, 8, hit),
        decreases sweep.left(ranges@),
    {
        let ghost before = sweep.blocks(ranges@);
        let (base, n, pause) = match sweep.next_block(ranges) {
            Some(b) => b,
            None => {
                return Progress::Exhausted;
            },
        };
        proof {
            lemma_first_in_sweep_step(mem, before, (base, n, pause), sweep.blocks(ranges@), 8, 8, hit);
        }
        let mut block = vec![0u8; n as usize];
        if cost.read_block(mem, base, block.as_mut_slice(), log) {
            let ghost bytes = block@;
            let mut i: u64 = 0;
            while i + 8 <= n
                invariant
                    sweep.wf(ranges@),
                    block@.len() == n,
                    bytes == block@,
                    0 < n <= crate::scan::CHUNK,
                    base + n <= u64::MAX,
                    i <= n,
                    layout.wf(),
                    hit == citing_table(mem, layout, strobj, key@, wanted, keys),
                    answer == first_in_sweep(mem, old(sweep).blocks(ranges@), 8, 8, hit),
                    answer == match first_in_block(hit, base, bytes, n as int, 0, 8, 8) {
                        Some(t) => Some(t),
                        None => first_in_sweep(mem, sweep.blocks(ranges@), 8, 8, hit),
                    },
                    first_in_block(hit, base, bytes, n as int, 0, 8, 8) == first_in_block(
                        hit,
                        base,
                        bytes,
                        n as int,
                        i as int,
                        8,
                        8,
                    ),
                decreases n + 8 - i,
            {
                let q = match crate::memory::u64_at(block.as_slice(), i as usize) {
                    Some(q) => q,
                    None => 0,
                };
                assert(q == qword_in(bytes, i as int));
                if q & !7u64 == strobj {
                    if let Some(found) = table_at(mem, layout, base + i, key, wanted, keys) {
                        assert(hit(base, bytes, i as int) == Some(found));
                        assert(first_in_block(hit, base, bytes, n as int, i as int, 8, 8) == Some(found));
                        return Progress::Found(found);
                    }
                }
                assert(hit(base, bytes, i as int) is None);
                proof {
                    lemma_first_in_block_next(hit, base, bytes, n as int, i as int, 8, 8);
                }
                i = i + 8;
            }
            assert(first_in_block(hit, base, bytes, n as int, i as int, 8, 8) is None);
        }
        if pause {
            return Progress::Paused;
        }
    }
}

/// Scans the tables that cite the String object `strobj`, and returns the
/// first one that passes as the wanted object, with the layout that reads it.
///
/// A slot cites the string when it holds an atom that points at it, whatever
/// its tag. Each citation is tested as the scan goes: there are only about ten
/// citations in the whole heap, so collecting them first would always read
/// the hundred MiB, even when the right table is the first one we meet.
pub fn scan_tables<M: Memory, L: SearchLog>(
    mem: &M,
    ranges: &[(u64, u64)],
    layout: Layout,
    strobj: u64,
    key: &str,
    wanted: Wanted,
    keys: &Keys,
    cost: &mut Scan,
    log: &mut L,
) -> (r: Option<(Layout, u64)>)
    requires
        layout.wf(),
    ensures
        r == first_in_sweep(
            mem,
            sweep_blocks(ranges@),
            8,
            8,
            citing_table(mem, layout, strobj, key@, wanted, keys),
        ),
        r matches Some((l, t)) ==> l.wf() && passes(mem, wanted, l, t, keys),
{
    let ghost answer = first_in_sweep(mem, sweep_blocks(ranges@), 8, 8, citing_table(mem, layout, strobj, key@, wanted, keys));
    let mut sweep = Sweep::new();
    loop
        invariant
            sweep.wf(ranges@),
            sweep.left(ranges@) >= 0,
            layout.wf(),
            answer == first_in_sweep(mem, sweep_blocks(ranges@), 8, 8, citing_table(mem, layout, strobj, key@, wanted, keys)),
            answer == first_in_sweep(mem, sweep.blocks(ranges@), 8, 8, citing_table(mem, layout, strobj, key@, wanted, keys)),
        decreases sweep.left(ranges@),
    {
        match scan_tables_from(mem, ranges, layout, strobj, key, wanted, keys, &mut sweep, cost, log) {
            Progress::Found(x) => {
                return Some(x);
            },
            Progress::Exhausted => {
                return None;
            },
            Progress::Paused => {
                cost.paused(log);
            },
        }
    }
}

/// What the search for the `GameManager` finds: the String object of
/// `fVersion` in the memory that changed, then the first table, in the
/// order of the sweep of `full` with the region of that string first, that
/// cites it and passes as the manager. With it, what the cache of the string
/// holds after the search, and the ranges in the order they were swept.
pub open spec fn manager_search<M: Memory>(
    mem: &M,
    module: (u64, u64),
    fresh: Seq<(u64, u64)>,
    full: Seq<(u64, u64)>,
    string_version: Option<u64>,
    binary: Option<Layout>,
    keys: &Keys,
) -> (Option<(Layout, u64)>, Option<u64>, Seq<(u64, u64)>) {
    let (found, cache) = string_found(mem, module, fresh, keys.f_version@, string_version, binary);
    match found {
        None => (None, cache, full),
        Some((layout, strobj)) => {
            let moved = region_first(full, strobj);
            (
                first_in_sweep(
                    mem,
                    sweep_blocks(moved),
                    8,
                    8,
                    citing_table(mem, layout, strobj, keys.f_version@, Wanted::Manager, keys),
                ),
                cache,
                moved,
            )
        },
    }
}

/// Is the range one of `seen`?
fn seen_before(seen: &Vec<(u64, u64)>, range: (u64, u64)) -> (b: bool)
    ensures
        b == seen@.contains(range),
{
    let mut k: usize = 0;
    while k < seen.len()
        invariant
            k <= seen@.len(),
            forall|j: int| 0 <= j < k ==> seen@[j] != range,
        decreases seen@.len() - k,
    {
        let (a, b) = seen[k];
        if a == range.0 && b == range.1 {
            assert(seen@[k as int] == range);
            return true;
        }
        k = k + 1;
    }
    false
}

/// The ranges of `all` that `seen` does not hold, in their order.
pub open spec fn unseen(all: Seq<(u64, u64)>, seen: Seq<(u64, u64)>) -> Seq<(u64, u64)>
    decreases all.len(),
{
    if all.len() == 0 {
        Seq::empty()
    } else {
        let rest = unseen(all.drop_last(), seen);
        if seen.contains(all.last()) {
            rest
        } else {
            rest.push(all.last())
        }
    }
}

/// The same ranges, in a vector of their own.
fn copy_of_ranges(ranges: &[(u64, u64)]) -> (v: Vec<(u64, u64)>)
    ensures
        v@ == ranges@,
{
    let mut v: Vec<(u64, u64)> = Vec::new();
    let mut k: usize = 0;
    while k < ranges.len()
        invariant
            k <= ranges@.len(),
            v@ == ranges@.subrange(0, k as int),
        decreases ranges@.len() - k,
    {
        v.push(ranges[k]);
        k = k + 1;
        assert(v@ =~= ranges@.subrange(0, k as int));
    }
    assert(v@ =~= ranges@);
    v
}

/// The ranges that `seen` does not hold.
fn unseen_ranges(all: &Vec<(u64, u64)>, seen: &Vec<(u64, u64)>) -> (fresh: Vec<(u64, u64)>)
    ensures
        fresh@ == unseen(all@, seen@),
{
    let mut fresh: Vec<(u64, u64)> = Vec::new();
    let mut k: usize = 0;
    while k < all.len()
        invariant
            k <= all@.len(),
            fresh@ == unseen(all@.subrange(0, k as int), seen@),
        decreases all@.len() - k,
    {
        assert(all@.subrange(0, k + 1).drop_last() =~= all@.subrange(0, k as int));
        assert(all@.subrange(0, k + 1).last() == all@[k as int]);
        if !seen_before(seen, all[k]) {
            fresh.push(all[k]);
        }
        k = k + 1;
    }
    assert(all@.subrange(0, all@.len() as int) =~= all@);
    fresh
}

/// The game the world fallback finds in the memory that changed: the String
/// object of `world`, then the first table, in the order of the sweep of
/// `full` with the region of that string first, that cites it and passes as
/// a `GameMode`, then that game, if it passes the rules of a game. With it,
/// what the cache of the string holds after the search.
pub open spec fn world_search<M: Memory>(
    mem: &M,
    module: (u64, u64),
    fresh: Seq<(u64, u64)>,
    full: Seq<(u64, u64)>,
    string_world: Option<u64>,
    binary: Option<Layout>,
    keys: &Keys,
) -> (Option<GameView>, Option<u64>) {
    let (found, cache) = string_found(mem, module, fresh, keys.world@, string_world, binary);
    match found {
        None => (None, cache),
        Some((layout, strobj)) => (
            world_game(
                mem,
                first_in_sweep(
                    mem,
                    sweep_blocks(region_first(full, strobj)),
                    8,
                    8,
                    citing_table(mem, layout, strobj, keys.world@, Wanted::GameMode, keys),
                ),
                keys,
            ),
            cache,
        ),
    }
}

/// The game that a table found as a `GameMode` gives, if it passes the rules
/// of a game.
pub open spec fn world_game<M: Memory>(mem: &M, first: Option<(Layout, u64)>, keys: &Keys) -> Option<
    GameView,
> {
    match first {
        None => None,
        Some((l, t)) => match validated(mem, l, t, keys) {
            None => None,
            Some((l2, set)) => Some(GameView { layout: l2, game_mode: t, set, hints: no_hints() }),
        },
    }
}

/// What `resolve` ends with once the search for the `GameMode` is over: the
/// game it found, the anchor, and the binary.
pub open spec fn after_world<M: Memory>(
    mem: &M,
    a: AnchorView,
    binary: Option<Layout>,
    g: Option<GameView>,
    keys: &Keys,
) -> (Option<GameView>, AnchorView, Option<Layout>) {
    match g {
        None => (None, a, binary),
        Some(g) => (
            Some(g),
            AnchorView {
                last_game_mode: Some(g.game_mode),
                layout: Some(g.layout),
                manager: match g.layout.lookup(mem, g.game_mode, keys.manager@, 0).0 {
                    Some(atom) => g.layout.table_of_atom(mem, atom),
                    None => None,
                },
                current_hint: Slot(0),
                ..a
            },
            Some(unbased(g.layout)),
        ),
    }
}

/// What `resolve` ends with once the `GameManager` is found at `tbl`, read
/// with `layout`: the anchor set on it, and the game it leads to.
pub open spec fn through_manager<M: Memory>(
    mem: &M,
    a2: AnchorView,
    layout: Layout,
    tbl: u64,
    keys: &Keys,
) -> (Option<GameView>, AnchorView, Option<Layout>) {
    let a3 = AnchorView { layout: Some(layout), manager: Some(tbl), current_hint: Slot(0), ..a2 };
    let (g, a4) = via_manager(a3, mem, keys);
    (g, a4, Some(unbased(layout)))
}

/// What `resolve` ends with once the search for the `GameManager` is over,
/// with what it found: through the manager when there is one; else, while
/// a silent manager is known, nothing; else the search for the `GameMode`.
pub open spec fn after_manager<M: Memory>(
    mem: &M,
    module: (u64, u64),
    a2: AnchorView,
    binary: Option<Layout>,
    found: Option<(Layout, u64)>,
    fresh: Seq<(u64, u64)>,
    full2: Seq<(u64, u64)>,
    keys: &Keys,
) -> (Option<GameView>, AnchorView, Option<Layout>) {
    match found {
        Some((layout, tbl)) => through_manager(mem, a2, layout, tbl, keys),
        None => if a2.manager is Some {
            let idle: u32 = if a2.manager_idle == u32::MAX {
                u32::MAX
            } else {
                (a2.manager_idle + 1) as u32
            };
            if a2.manager_proven || idle < MANAGER_IDLE_LIMIT {
                (None, AnchorView { manager_idle: idle, ..a2 }, binary)
            } else {
                (None, AnchorView { manager: None, manager_idle: 0, ..a2 }, binary)
            }
        } else {
            let (g, cache) = world_search(mem, module, fresh, full2, a2.string_world, binary, keys);
            after_world(mem, AnchorView { string_world: cache, ..a2 }, binary, g, keys)
        },
    }
}

/// What `resolve` finds, the anchor it leaves, and what the binary holds
/// after it.
///
/// The fast path first. Then, when the memory map shows no new range, only
/// one attempt in `FULL_SWEEP` reads the heap again. The manager is searched
/// while it is unknown; when it is found, the fast path runs through it at
/// once. A manager that is known but leads to no game stops the search,
/// unless it never delivered a game and has been silent for
/// `MANAGER_IDLE_LIMIT` attempts: then it is dropped. With no manager, the
/// `GameMode` is searched by its `world` key.
pub open spec fn resolved<M: Memory>(
    mem: &M,
    module: (u64, u64),
    a0: AnchorView,
    binary: Option<Layout>,
    ranges: Seq<(u64, u64)>,
    keys: &Keys,
) -> (Option<GameView>, AnchorView, Option<Layout>) {
    let (fast, a) = via_manager(a0, mem, keys);
    if fast is Some {
        (fast, a, binary)
    } else if ranges.len() == 0 {
        (None, a, binary)
    } else {
        let fresh0 = unseen(ranges, a.regions);
        let sweeps: u32 = if fresh0.len() != 0 {
            a.sweeps
        } else if a.sweeps == u32::MAX {
            0
        } else {
            (a.sweeps + 1) as u32
        };
        if fresh0.len() == 0 && sweeps % FULL_SWEEP != 0 {
            (None, AnchorView { sweeps, ..a }, binary)
        } else {
            let a1 = AnchorView { sweeps, regions: ranges, ..a };
            let fresh1 = if fresh0.len() == 0 {
                ranges
            } else {
                fresh0
            };
            let fresh = match a1.last_game_mode {
                Some(addr) => region_first(fresh1, addr),
                None => fresh1,
            };
            let full = match a1.last_game_mode {
                Some(addr) => region_first(ranges, addr),
                None => ranges,
            };
            let (found, version, full2) = if a1.manager is None {
                manager_search(mem, module, fresh, full, a1.string_version, binary, keys)
            } else {
                (None, a1.string_version, full)
            };
            let a2 = AnchorView { string_version: version, ..a1 };
            after_manager(mem, module, a2, binary, found, fresh, full2, keys)
        }
    }
}

/// Looks for the game in progress.
///
/// Three stages, from the cheapest to the most expensive:
///
/// 1. follow `GameManager.current`, if the anchor is known;
/// 2. otherwise, locate the `GameManager` -- it exists as soon as the SWF is
///    loaded, so this search already succeeds in the menus, before any game;
/// 3. as a last resort, look for a `GameMode` directly by its `world` key.
///    This only serves when stage 2 fails.
///
/// Only what changed is scanned: a region that is not in the previous list
/// is new, or it grew. When there is none, nothing can have been born since
/// last time, and the scan is skipped -- but every `FULL_SWEEP` attempts, a
/// full pass all the same.
///
/// This runs the whole search in one call: where a pause is due, the log
/// hears of it and the search goes on. A `Search` is the same search, which
/// stops there and lets the host give the tick back.
pub fn resolve<M: Memory, L: SearchLog>(
    mem: &M,
    module: (u64, u64),
    anchor: &mut Anchor,
    binary: &mut Binary,
    ranges: &[(u64, u64)],
    keys: &Keys,
    log: &mut L,
) -> (r: Option<Game>)
    requires
        old(anchor)@.wf(),
        old(binary)@ matches Some(l) ==> l.wf(),
    ensures
        (
            match r {
                Some(g) => Some(g@),
                None => None,
            },
            final(anchor)@,
            final(binary)@,
        ) == resolved(mem, module, old(anchor)@, old(binary)@, ranges@, keys),
        final(anchor)@.wf(),
        final(binary)@ matches Some(l) ==> l.wf(),
        r matches Some(g) ==> g@.layout.wf() && g@.hints == no_hints() && proven_game(mem, g@, keys),
        via_manager(old(anchor)@, mem, keys).0 matches Some(g) ==> r matches Some(found) && found@
            == g,
{
    match Search::start(mem, module, anchor, binary, ranges, keys, log) {
        Searching::Over(g) => g,
        Searching::Going(search) => search.run_out(mem, module, anchor, binary, keys, log),
    }
}


/// What `resolve` ends with once the String object of `fVersion` is found,
/// or not: the cache keeps it, and the tables that cite it are searched in
/// `full`, the region of the string first.
pub open spec fn after_manager_string<M: Memory>(
    mem: &M,
    module: (u64, u64),
    a: AnchorView,
    binary: Option<Layout>,
    found: Option<(Layout, u64)>,
    fresh: Seq<(u64, u64)>,
    full: Seq<(u64, u64)>,
    keys: &Keys,
) -> (Option<GameView>, AnchorView, Option<Layout>) {
    let a2 = AnchorView { string_version: string_cache_of(found), ..a };
    match found {
        None => after_manager(mem, module, a2, binary, None, fresh, full, keys),
        Some((layout, strobj)) => after_manager(
            mem,
            module,
            a2,
            binary,
            first_in_sweep(
                mem,
                sweep_blocks(region_first(full, strobj)),
                8,
                8,
                citing_table(mem, layout, strobj, keys.f_version@, Wanted::Manager, keys),
            ),
            fresh,
            region_first(full, strobj),
            keys,
        ),
    }
}

/// What `resolve` ends with once the String object of `world` is found, or
/// not: the cache keeps it, and the tables that cite it are searched in
/// `full`, the region of the string first.
pub open spec fn after_world_string<M: Memory>(
    mem: &M,
    a: AnchorView,
    binary: Option<Layout>,
    found: Option<(Layout, u64)>,
    full: Seq<(u64, u64)>,
    keys: &Keys,
) -> (Option<GameView>, AnchorView, Option<Layout>) {
    let a5 = AnchorView { string_world: string_cache_of(found), ..a };
    match found {
        None => after_world(mem, a5, binary, None, keys),
        Some((layout, strobj)) => after_world(
            mem,
            a5,
            binary,
            world_game(
                mem,
                first_in_sweep(
                    mem,
                    sweep_blocks(region_first(full, strobj)),
                    8,
                    8,
                    citing_table(mem, layout, strobj, keys.world@, Wanted::GameMode, keys),
                ),
                keys,
            ),
            keys,
        ),
    }
}

/// A search for the game is over with `r`: what it found, the anchor and
/// the binary are `goal`, each in a state the reader can go on with.
pub open spec fn over<M: Memory>(
    r: Option<Game>,
    mem: &M,
    a: AnchorView,
    binary: Option<Layout>,
    keys: &Keys,
    goal: (Option<GameView>, AnchorView, Option<Layout>),
) -> bool {
    &&& (
        match r {
            Some(g) => Some(g@),
            None => None,
        },
        a,
        binary,
    ) == goal
    &&& a.wf()
    &&& binary matches Some(l) ==> l.wf()
    &&& r matches Some(g) ==> g@.layout.wf() && g@.hints == no_hints() && proven_game(mem, g@, keys)
}

/// The stage a search for the game is in, with what it carries.
pub enum Stage {
    /// The String object of `fVersion`, in the memory that changed.
    ManagerString(Finding),
    /// The tables that cite it, read with this layout, from where the sweep
    /// stands.
    ManagerTables(Layout, u64, Sweep),
    /// The String object of `world`, in the memory that changed.
    WorldString(Finding),
    /// The tables that cite it, read with this layout, from where the sweep
    /// stands.
    WorldTables(Layout, u64, Sweep),
}

/// How many stages may follow this one.
pub open spec fn stages_left(stage: Stage) -> int {
    match stage {
        Stage::ManagerString(_) => 3,
        Stage::ManagerTables(..) => 2,
        Stage::WorldString(_) => 1,
        Stage::WorldTables(..) => 0,
    }
}

/// The stage, with the anchor and binary as they stand, leads to `goal`.
spec fn stage_on_track<M: Memory>(
    stage: Stage,
    mem: &M,
    module: (u64, u64),
    fresh: Seq<(u64, u64)>,
    full: Seq<(u64, u64)>,
    a: AnchorView,
    binary: Option<Layout>,
    keys: &Keys,
    goal: (Option<GameView>, AnchorView, Option<Layout>),
) -> bool {
    &&& a.wf()
    &&& binary matches Some(l) ==> l.wf()
    &&& match stage {
        Stage::ManagerString(f) => f.wf(module, fresh, keys.f_version@) && a.manager is None
            && after_manager_string(
            mem,
            module,
            a,
            binary,
            f.rest(mem, module, fresh, keys.f_version@),
            fresh,
            full,
            keys,
        ) == goal,
        Stage::ManagerTables(layout, strobj, sweep) => layout.wf() && sweep.wf(full) && a.manager
            is None && after_manager(
            mem,
            module,
            a,
            binary,
            first_in_sweep(
                mem,
                sweep.blocks(full),
                8,
                8,
                citing_table(mem, layout, strobj, keys.f_version@, Wanted::Manager, keys),
            ),
            fresh,
            full,
            keys,
        ) == goal,
        Stage::WorldString(f) => f.wf(module, fresh, keys.world@) && after_world_string(
            mem,
            a,
            binary,
            f.rest(mem, module, fresh, keys.world@),
            full,
            keys,
        ) == goal,
        Stage::WorldTables(layout, strobj, sweep) => layout.wf() && sweep.wf(full) && after_world(
            mem,
            a,
            binary,
            world_game(
                mem,
                first_in_sweep(
                    mem,
                    sweep.blocks(full),
                    8,
                    8,
                    citing_table(mem, layout, strobj, keys.world@, Wanted::GameMode, keys),
                ),
                keys,
            ),
            keys,
        ) == goal,
    }
}

/// A search for the game that stops when a pause is due, and goes on from
/// there at the next step: the host lets a tick pass in between, and
/// LiveSplit does not freeze during a long scan.
pub struct Search {
    stage: Stage,
    fresh: Vec<(u64, u64)>,
    full: Vec<(u64, u64)>,
    cost: Scan,
    goal: Ghost<(Option<GameView>, AnchorView, Option<Layout>)>,
}

/// The search `s` is closer to its end than `t`: fewer stages to go; or as
/// many, and fewer passes; or as many, and less to sweep in the pass.
pub open spec fn closer(s: Search, t: Search) -> bool {
    &&& 0 <= s.passes_to_go()
    &&& 0 <= s.bytes_to_go()
    &&& s.stages_to_go() < t.stages_to_go() || (s.stages_to_go() == t.stages_to_go() && (
    s.passes_to_go() < t.passes_to_go() || (s.passes_to_go() == t.passes_to_go()
        && s.bytes_to_go() < t.bytes_to_go())))
}

/// Where a search for the game stands after a call.
pub enum Searching {
    /// The search is over, with this game or none.
    Over(Option<Game>),
    /// A pause is due: the search goes on at the next step.
    Going(Search),
}

/// The `GameManager` is found at `tbl`: set the anchor on it, and follow it
/// to the game.
fn manager_found<M: Memory, L: SearchLog>(
    mem: &M,
    anchor: &mut Anchor,
    binary: &mut Binary,
    keys: &Keys,
    layout: Layout,
    tbl: u64,
    cost: Scan,
    log: &mut L,
) -> (r: Option<Game>)
    requires
        old(anchor)@.wf(),
        layout.wf(),
    ensures
        over(r, mem, final(anchor)@, final(binary)@, keys, through_manager(mem, old(anchor)@, layout, tbl, keys)),
{
    log.manager_found(tbl, layout.profile.name);
    binary.learn(&layout);
    anchor.layout = Some(layout);
    anchor.manager = Some(tbl);
    anchor.current_hint = Slot(0);
    let game = resolve_via_manager(mem, anchor, keys);
    proof {
        if game is Some {
            let g = game->0;
            assert(validated(mem, layout, g@.game_mode, keys) == Some((g@.layout, g@.set)));
            assert(proven_game(mem, g@, keys));
        }
    }
    let mut cost = cost;
    cost.outcome(
        if game.is_some() {
            "game_via_manager"
        } else {
            "manager_only"
        },
        log,
    );
    cost.finish(log);
    game
}

/// A table passes as the `GameMode`: the game, if it passes the rules of a
/// game, and the anchor set on it.
fn world_found<M: Memory, L: SearchLog>(
    mem: &M,
    anchor: &mut Anchor,
    binary: &mut Binary,
    keys: &Keys,
    l: Layout,
    t: u64,
    cost: Scan,
    log: &mut L,
) -> (r: Option<Game>)
    requires
        old(anchor)@.wf(),
        old(binary)@ matches Some(b) ==> b.wf(),
        l.wf(),
    ensures
        over(
            r,
            mem,
            final(anchor)@,
            final(binary)@,
            keys,
            after_world(mem, old(anchor)@, old(binary)@, world_game(mem, Some((l, t)), keys), keys),
        ),
{
    let mut cost = cost;
    let game = match validate(mem, PepperFlashHeap::new(l), t, keys) {
        Some(g) => g,
        None => {
            cost.finish(log);
            return None;
        },
    };
    let layout = game.heap.layout();
    log.game_mode_found(game.game_mode, game.set.as_str(), layout.profile.name);
    binary.learn(&layout);
    anchor.last_game_mode = Some(game.game_mode);
    anchor.layout = Some(layout);
    // `Mode.manager` leads to the GameManager. It makes any new resolution
    // inside the same game free.
    anchor.manager = layout.child(mem, game.game_mode, keys.manager.as_str());
    anchor.current_hint = Slot(0);
    cost.outcome("game_via_world", log);
    cost.finish(log);
    Some(game)
}

/// No `GameManager` was found: the search for the `GameMode` starts, with
/// the String object of `world` in the cache, or by a search for it.
fn world_stage<M: Memory, L: SearchLog>(
    mem: &M,
    module: (u64, u64),
    anchor: &mut Anchor,
    binary: &Binary,
    keys: &Keys,
    fresh: &Vec<(u64, u64)>,
    full: &mut Vec<(u64, u64)>,
    cost: &mut Scan,
    log: &mut L,
    Ghost(goal): Ghost<(Option<GameView>, AnchorView, Option<Layout>)>,
) -> (stage: Stage)
    requires
        old(anchor)@.wf(),
        old(anchor)@.manager is None,
        binary@ matches Some(l) ==> l.wf(),
        after_manager(mem, module, old(anchor)@, binary@, None, fresh@, old(full)@, keys) == goal,
    ensures
        stage_on_track(stage, mem, module, fresh@, final(full)@, final(anchor)@, binary@, keys, goal),
        stages_left(stage) <= 1,
{
    cost.stage("world_string", log);
    let mut cache = anchor.string_world;
    match Finding::begin(mem, module, keys.world.as_str(), &mut cache, binary, cost, log) {
        Ok((layout, strobj)) => {
            anchor.string_world = cache;
            move_region_first(full.as_mut_slice(), strobj);
            cost.stage("world_tables", log);
            let sweep = Sweep::new();
            assert(sweep.blocks(full@) == sweep_blocks(full@));
            Stage::WorldTables(layout, strobj, sweep)
        },
        Err(f) => {
            anchor.string_world = cache;
            assert(f.wf(module, fresh@, keys.world@));
            Stage::WorldString(f)
        },
    }
}

impl Search {
    /// What the search will end with: the game, the anchor and the binary
    /// that `resolve` gives from where the search started.
    pub closed spec fn goal(self) -> (Option<GameView>, AnchorView, Option<Layout>) {
        self.goal@
    }

    /// How many stages may follow this one.
    pub closed spec fn stages_to_go(self) -> int {
        stages_left(self.stage)
    }

    /// How many passes may follow this one in the stage.
    pub closed spec fn passes_to_go(self) -> int {
        match self.stage {
            Stage::ManagerString(f) => f.passes_left(),
            Stage::WorldString(f) => f.passes_left(),
            _ => 0,
        }
    }

    /// How many blocks the pass in progress has read.
    pub closed spec fn blocks_read(self) -> u64 {
        match self.stage {
            Stage::ManagerString(f) => f.blocks_read(),
            Stage::ManagerTables(_, _, sweep) => sweep.blocks_read(),
            Stage::WorldString(f) => f.blocks_read(),
            Stage::WorldTables(_, _, sweep) => sweep.blocks_read(),
        }
    }

    /// What is left to sweep in this pass.
    pub closed spec fn bytes_to_go(self) -> int {
        match self.stage {
            Stage::ManagerString(f) => f.sweep_left(self.fresh@),
            Stage::ManagerTables(_, _, sweep) => sweep.left(self.full@),
            Stage::WorldString(f) => f.sweep_left(self.fresh@),
            Stage::WorldTables(_, _, sweep) => sweep.left(self.full@),
        }
    }

    /// The search, with the anchor and binary as they stand, leads to its
    /// goal.
    pub closed spec fn on_track<M: Memory>(
        self,
        mem: &M,
        module: (u64, u64),
        a: AnchorView,
        binary: Option<Layout>,
        keys: &Keys,
    ) -> bool {
        stage_on_track(self.stage, mem, module, self.fresh@, self.full@, a, binary, keys, self.goal@)
    }

    /// Starts a search for the game: the fast path, and then, when it finds
    /// nothing, the search that `resolve` makes, up to the first pause that
    /// is due: when the pass in progress has read a multiple of
    /// `CHUNKS_PER_TICK` blocks.
    #[verifier::rlimit(20)]
    pub fn start<M: Memory, L: SearchLog>(
        mem: &M,
        module: (u64, u64),
        anchor: &mut Anchor,
        binary: &mut Binary,
        ranges: &[(u64, u64)],
        keys: &Keys,
        log: &mut L,
    ) -> (r: Searching)
        requires
            old(anchor)@.wf(),
            old(binary)@ matches Some(l) ==> l.wf(),
        ensures
            match r {
                Searching::Over(g) => over(
                    g,
                    mem,
                    final(anchor)@,
                    final(binary)@,
                    keys,
                    resolved(mem, module, old(anchor)@, old(binary)@, ranges@, keys),
                ),
                Searching::Going(s) => s.goal() == resolved(
                    mem,
                    module,
                    old(anchor)@,
                    old(binary)@,
                    ranges@,
                    keys,
                ) && s.on_track(mem, module, final(anchor)@, final(binary)@, keys) && final(anchor)@.wf()
                    && (final(binary)@ matches Some(l) ==> l.wf()) && 0 <= s.passes_to_go() && 0
                    <= s.bytes_to_go() && s.blocks_read() % crate::scan::CHUNKS_PER_TICK == 0,
            },
    {
        let ghost goal = resolved(mem, module, anchor@, binary@, ranges@, keys);
        if let Some(game) = resolve_via_manager(mem, anchor, keys) {
            proof {
                let l = old(anchor)@.layout->0;
                assert(validated(mem, l, game@.game_mode, keys) == Some((game@.layout, game@.set)));
                assert(proven_game(mem, game@, keys));
            }
            return Searching::Over(Some(game));
        }
        let ghost a = anchor@;
        let mut cost = Scan::new(log);
        let all = copy_of_ranges(ranges);
        if all.len() == 0 {
            cost.finish(log);
            return Searching::Over(None);
        }
        let mut fresh = unseen_ranges(&all, &anchor.regions);
        if fresh.len() == 0 {
            anchor.sweeps = anchor.sweeps.wrapping_add(1);
            if anchor.sweeps % FULL_SWEEP != 0 {
                cost.outcome("unchanged_ranges", log);
                cost.finish(log);
                return Searching::Over(None);
            }
            fresh = copy_of_ranges(ranges);
        }
        anchor.regions = copy_of_ranges(ranges);
        let mut full = all;
        if let Some(addr) = anchor.last_game_mode {
            move_region_first(fresh.as_mut_slice(), addr);
            move_region_first(full.as_mut_slice(), addr);
        }
        let ghost a1 = anchor@;
        assert(a1 == (AnchorView { sweeps: a1.sweeps, regions: ranges@, ..a }));
        if anchor.manager.is_none() {
            cost.stage("manager", log);
            cost.stage("manager_string", log);
            let mut cache = anchor.string_version;
            let stage = match Finding::begin(
                mem,
                module,
                keys.f_version.as_str(),
                &mut cache,
                binary,
                &mut cost,
                log,
            ) {
                Ok((layout, strobj)) => {
                    anchor.string_version = cache;
                    move_region_first(full.as_mut_slice(), strobj);
                    cost.stage("manager_tables", log);
                    let sweep = Sweep::new();
                    assert(sweep.blocks(full@) == sweep_blocks(full@));
                    Stage::ManagerTables(layout, strobj, sweep)
                },
                Err(f) => {
                    anchor.string_version = cache;
                    assert(f.wf(module, fresh@, keys.f_version@));
                    Stage::ManagerString(f)
                },
            };
            let search = Search { stage, fresh, full, cost, goal: Ghost(goal) };
            return search.step(mem, module, anchor, binary, keys, log);
        }
        // The anchor is set but `current` points at no game: there simply is
        // none. Nothing to scan.
        anchor.manager_idle = anchor.manager_idle.saturating_add(1);
        if anchor.manager_proven || anchor.manager_idle < MANAGER_IDLE_LIMIT {
            cost.finish(log);
            return Searching::Over(None);
        }
        // Silent for a long time and never proven: the anchor may be the
        // problem itself. We drop it and search again.
        log.silent_anchor_dropped();
        anchor.manager = None;
        anchor.manager_idle = 0;
        cost.finish(log);
        Searching::Over(None)
    }

    /// Goes on with the search to its end, with no pause: where one is due,
    /// the log hears of it and the search goes on.
    pub fn run_out<M: Memory, L: SearchLog>(
        self,
        mem: &M,
        module: (u64, u64),
        anchor: &mut Anchor,
        binary: &mut Binary,
        keys: &Keys,
        log: &mut L,
    ) -> (r: Option<Game>)
        requires
            self.on_track(mem, module, old(anchor)@, old(binary)@, keys),
            0 <= self.passes_to_go(),
            0 <= self.bytes_to_go(),
        ensures
            over(r, mem, final(anchor)@, final(binary)@, keys, self.goal()),
    {
        let mut search = self;
        loop
            invariant
                search.goal() == self.goal(),
                search.on_track(mem, module, anchor@, binary@, keys),
                0 <= search.passes_to_go(),
                0 <= search.bytes_to_go(),
            decreases search.stages_to_go(), search.passes_to_go(), search.bytes_to_go(),
        {
            match search.step(mem, module, anchor, binary, keys, log) {
                Searching::Over(g) => {
                    return g;
                },
                Searching::Going(next) => {
                    search = next;
                },
            }
        }
    }

    /// Goes on with the search until it is over or a pause is due. The
    /// stages follow one another without a pause between them; a pause is
    /// due when the pass in progress has read a multiple of
    /// `CHUNKS_PER_TICK` blocks.
    #[verifier::rlimit(50)]
    pub fn step<M: Memory, L: SearchLog>(
        self,
        mem: &M,
        module: (u64, u64),
        anchor: &mut Anchor,
        binary: &mut Binary,
        keys: &Keys,
        log: &mut L,
    ) -> (r: Searching)
        requires
            self.on_track(mem, module, old(anchor)@, old(binary)@, keys),
        ensures
            match r {
                Searching::Over(g) => over(g, mem, final(anchor)@, final(binary)@, keys, self.goal()),
                Searching::Going(s) => s.goal() == self.goal() && s.on_track(
                    mem,
                    module,
                    final(anchor)@,
                    final(binary)@,
                    keys,
                ) && final(anchor)@.wf() && (final(binary)@ matches Some(l) ==> l.wf()) && closer(
                    s,
                    self,
                ) && s.blocks_read() % crate::scan::CHUNKS_PER_TICK == 0,
            },
    {
        let Search { stage, fresh, full, cost, goal } = self;
        let mut stage = stage;
        let mut full = full;
        let mut cost = cost;
        loop
            invariant
                stage_on_track(stage, mem, module, fresh@, full@, anchor@, binary@, keys, goal@),
                goal@ == self.goal(),
                fresh@ == self.fresh@,
                stages_left(stage) < stages_left(self.stage) || (stage == self.stage && full@
                    == self.full@),
            decreases stages_left(stage),
        {
            match stage {
                Stage::ManagerString(f) => {
                    let ghost f0 = f;
                    let mut f = f;
                    let swept = fresh.as_slice();
                    assert(swept@ == fresh@);
                    match f.advance(mem, module, swept, keys.f_version.as_str(), &mut cost, log) {
                        Progress::Paused => {
                            assert(self.stage == Stage::ManagerString(f0));
                            cost.paused(log);
                            let s = Search { stage: Stage::ManagerString(f), fresh, full, cost, goal };
                            assert(closer(s, self));
                            return Searching::Going(s);
                        },
                        Progress::Exhausted => {
                            // A search for a string always answers, or pauses.
                            cost.finish(log);
                            return Searching::Over(None);
                        },
                        Progress::Found(found) => {
                            anchor.string_version = match found {
                                Some((_, so)) => Some(so),
                                None => None,
                            };
                            match found {
                                Some((layout, strobj)) => {
                                    move_region_first(full.as_mut_slice(), strobj);
                                    cost.stage("manager_tables", log);
                                    let sweep = Sweep::new();
                                    assert(sweep.blocks(full@) == sweep_blocks(full@));
                                    stage = Stage::ManagerTables(layout, strobj, sweep);
                                },
                                None => {
                                    stage = world_stage(
                                        mem,
                                        module,
                                        anchor,
                                        binary,
                                        keys,
                                        &fresh,
                                        &mut full,
                                        &mut cost,
                                        log,
                                        goal,
                                    );
                                },
                            }
                        },
                    }
                },
                Stage::ManagerTables(layout, strobj, sweep) => {
                    let mut sweep = sweep;
                    match scan_tables_from(
                        mem,
                        full.as_slice(),
                        layout,
                        strobj,
                        keys.f_version.as_str(),
                        Wanted::Manager,
                        keys,
                        &mut sweep,
                        &mut cost,
                        log,
                    ) {
                        Progress::Paused => {
                            cost.paused(log);
                            let s = Search { stage: Stage::ManagerTables(layout, strobj, sweep), fresh, full, cost, goal };
                            assert(closer(s, self));
                            return Searching::Going(s);
                        },
                        Progress::Found((l, t)) => {
                            return Searching::Over(manager_found(mem, anchor, binary, keys, l, t, cost, log));
                        },
                        Progress::Exhausted => {
                            stage = world_stage(
                                mem,
                                module,
                                anchor,
                                binary,
                                keys,
                                &fresh,
                                &mut full,
                                &mut cost,
                                log,
                                goal,
                            );
                        },
                    }
                },
                Stage::WorldString(f) => {
                    let ghost f0 = f;
                    let mut f = f;
                    let swept = fresh.as_slice();
                    assert(swept@ == fresh@);
                    match f.advance(mem, module, swept, keys.world.as_str(), &mut cost, log) {
                        Progress::Paused => {
                            assert(stages_left(self.stage) > 1 || self.stage == Stage::WorldString(f0));
                            cost.paused(log);
                            let s = Search { stage: Stage::WorldString(f), fresh, full, cost, goal };
                            assert(closer(s, self));
                            return Searching::Going(s);
                        },
                        Progress::Exhausted => {
                            // A search for a string always answers, or pauses.
                            cost.finish(log);
                            return Searching::Over(None);
                        },
                        Progress::Found(found) => {
                            anchor.string_world = match found {
                                Some((_, so)) => Some(so),
                                None => None,
                            };
                            match found {
                                Some((layout, strobj)) => {
                                    move_region_first(full.as_mut_slice(), strobj);
                                    cost.stage("world_tables", log);
                                    let sweep = Sweep::new();
                                    assert(sweep.blocks(full@) == sweep_blocks(full@));
                                    stage = Stage::WorldTables(layout, strobj, sweep);
                                },
                                None => {
                                    cost.finish(log);
                                    return Searching::Over(None);
                                },
                            }
                        },
                    }
                },
                Stage::WorldTables(layout, strobj, sweep) => {
                    let mut sweep = sweep;
                    match scan_tables_from(
                        mem,
                        full.as_slice(),
                        layout,
                        strobj,
                        keys.world.as_str(),
                        Wanted::GameMode,
                        keys,
                        &mut sweep,
                        &mut cost,
                        log,
                    ) {
                        Progress::Paused => {
                            cost.paused(log);
                            let s = Search { stage: Stage::WorldTables(layout, strobj, sweep), fresh, full, cost, goal };
                            assert(closer(s, self));
                            return Searching::Going(s);
                        },
                        Progress::Found((l, t)) => {
                            return Searching::Over(world_found(mem, anchor, binary, keys, l, t, cost, log));
                        },
                        Progress::Exhausted => {
                            cost.finish(log);
                            return Searching::Over(None);
                        },
                    }
                },
            }
        }
    }
}


/// Each field of the state read from the `GameMode` comes from the property
/// it names: the game over from `fl_gameOver`, the lock from `fl_lock`, the
/// dimension from `currentDim`, the duration from `duration`, and the end
/// sequence from `endModeTimer` -- each read with the hint the game kept for
/// it. The level and the level before come from `currentId` and
/// `previousId` of the `GameMechanics` that `world` points at, and the frame
/// timer from `frameTimer` of the chrono that `gameChrono` points at.
pub proof fn each_state_field_comes_from_its_property<M: Memory>(g: GameView, mem: &M, keys: &Keys)
    ensures
        state_read(g, mem, keys).0 matches Some((s, _)) ==> {
            let l = g.layout;
            let gm = g.game_mode;
            &&& s.game_over == (flag(read_prop(l, mem, gm, keys.fl_game_over@, g.hints.game_over).0)
                == Some(true))
            &&& s.locked == (flag(read_prop(l, mem, gm, keys.fl_lock@, g.hints.lock).0) == Some(
                true,
            ))
            &&& s.dim == whole_or(read_prop(l, mem, gm, keys.current_dim@, g.hints.dim).0, 0i64)
            &&& number(read_prop(l, mem, gm, keys.duration@, g.hints.duration).0) matches Some(d)
                && s.duration_ms == cycles_ms(d)
            &&& s.end_sequence == end_sequence_of(
                read_prop(l, mem, gm, keys.end_mode_timer@, g.hints.end_mode).0,
            )
        },
        state_read(g, mem, keys).0 matches Some((s, _)) ==> {
            let l = g.layout;
            let w = read_prop(l, mem, g.game_mode, keys.world@, g.hints.world).0;
            let c = read_prop(l, mem, g.game_mode, keys.game_chrono@, g.hints.chrono).0;
            &&& object_ref(w) matches Some(r) && l.table_of_atom(mem, r) matches Some(world) && whole(
                read_prop(l, mem, world, keys.current_id@, g.hints.current_id).0,
            ) == Some(s.level) && s.previous == whole_or(
                read_prop(l, mem, world, keys.previous_id@, g.hints.previous_id).0,
                -1i64,
            )
            &&& object_ref(c) matches Some(r) && l.table_of_atom(mem, r) matches Some(chrono) && whole(
                read_prop(l, mem, chrono, keys.frame_timer@, g.hints.frame).0,
            ) == Some(s.frame_timer)
        },
{
}

} // verus!
