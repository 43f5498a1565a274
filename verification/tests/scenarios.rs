use hammerfest_autosplitter::atom;
use hammerfest_autosplitter::avm1::{windows_x64, Layout};
use hammerfest_autosplitter::hammerfest::{resolve, Anchor, Game, Keys, Search, Searching};
use hammerfest_autosplitter::memory::Heap;
use hammerfest_autosplitter::pepper_flash::Binary;
use hammerfest_autosplitter::policy::State;
use hammerfest_autosplitter::scan::{SearchLog, Silent};
use hammerfest_autosplitter::level::World as GameWorld;
use hammerfest_autosplitter::policy::{Policy, TimerState};
use hammerfest_autosplitter::replay::Capture;
use hammerfest_autosplitter::session::Session;
use flate2::write::GzEncoder;
use flate2::Compression;
use std::io::Write;

/// Where the fake module sits. No bytes are served for it: only `in_module`
/// looks at this range, and it only compares.
const MODULE: (u64, u64) = (0x4000_0000, 0x4010_0000);

/// Where the heap sits.
const HEAP_BASE: u64 = 0x1000_0000;

// The layout this file writes. The reader derives its own, and it must land
// on these numbers. The table geometry is the one called `windows-x64`;
// every other offset differs from the measured seed.

/// String object: vtable, buffer pointer, length in UTF-16 units.
const STR_VT: u64 = MODULE.0 + 0x120;
const STR_BUF: u64 = 0x08;
const STR_LEN: u64 = 0x10;
const STR_SIZE: usize = 0x18;

/// ScriptObject: vtable, then the property table.
const SO_VT: u64 = MODULE.0 + 0x200;
const SO_TBL: u64 = 0x30;
const SO_SIZE: usize = 0x38;

/// The same vtable on another build of the plugin.
const OTHER_STR_VT: u64 = MODULE.0 + 0x900;

/// Property table: vtable, capacity, then the entries.
const TBL_VT: u64 = MODULE.0 + 0x340;
const TBL_CAPACITY: u64 = 0x08;
/// Offset of the first key. One entry is (value, pad, key).
const KEYS: u64 = 0x58;
const STRIDE: u64 = 24;
const VALUE: i64 = -0x10;

/// The obfuscated names this heap is written with.
fn keys() -> Keys {
    let name = |s: &str| s.to_string();
    Keys {
        world: name("]=[]8"),
        current: name("(3Bn"),
        set_name: name("+8m;"),
        current_id: name("=7K"),
        previous_id: name("_p2"),
        manager: name("$Zr"),
        game_chrono: name("*9e"),
        frame_timer: name("[Tf"),
        game_timer: name("[Tg"),
        halted_timer: name("[Th"),
        fl_stop: name("-5s"),
        fl_game_over: name("-5o"),
        fl_lock: name("-5l"),
        duration: name("%d1"),
        current_dim: name("%c2"),
        end_mode_timer: name("%e3"),
        f_version: name("@fV"),
        worlds: vec![
            (name("<1a"), name("xml_adventure")),
            (name("<1b"), name("xml_deepnight")),
            (name("<1c"), name("xml_hiko")),
            (name("<1d"), name("xml_ayame")),
            (name("<1e"), name("xml_hk")),
        ],
    }
}

/// A bump allocator over one region, and the strings already interned.
struct Bytes {
    data: Vec<u8>,
    interned: Vec<(String, u64)>,
    /// The String vtable this heap was written with. Another Flash build puts
    /// it somewhere else in the module.
    str_vt: u64,
}

/// An object the builder wrote: its ScriptObject, its table, and how many
/// properties the table already holds.
#[derive(Copy, Clone)]
struct Obj {
    so: u64,
    tbl: u64,
    next: u64,
}

impl Obj {
    /// The atom that points at this object.
    fn atom(&self) -> u64 {
        self.so | atom::TAG_OBJECT
    }
}

impl Bytes {
    fn new(str_vt: u64) -> Self {
        Self {
            // Address zero means "no address" to the reader, so nothing is
            // ever written at the very start of the region.
            data: vec![0u8; 8],
            interned: Vec::new(),
            str_vt,
        }
    }

    /// Reserves `len` bytes, and keeps the next address 8-aligned.
    ///
    /// The reader scans aligned qwords, and nothing else. An object on an odd
    /// address is invisible to it, exactly as it would be in a real heap.
    fn reserve(&mut self, len: usize) -> u64 {
        let addr = HEAP_BASE + self.data.len() as u64;
        self.data
            .resize(self.data.len() + len.next_multiple_of(8), 0);
        addr
    }

    fn put(&mut self, addr: u64, value: u64) {
        let at = (addr - HEAP_BASE) as usize;
        self.data[at..at + 8].copy_from_slice(&value.to_le_bytes());
    }

    fn get(&self, addr: u64) -> u64 {
        let at = (addr - HEAP_BASE) as usize;
        u64::from_le_bytes(self.data[at..at + 8].try_into().unwrap())
    }

    /// Writes another value under a key the object already carries.
    fn replace(&mut self, o: &Obj, key: &str, value: u64) {
        let wanted = self.string(key);
        for i in 0..o.next {
            let key_addr = o.tbl + KEYS + i * STRIDE;
            if self.get(key_addr) == wanted {
                self.put((key_addr as i64 + VALUE) as u64, value);
                return;
            }
        }
        panic!("the object carries no property under that key");
    }

    /// Swaps two entries of a table, key and value together.
    ///
    /// The game does this when it rebuilds a table. The reader keeps the index
    /// of an entry from one reading to the next, so the entry must be able to
    /// move under it.
    fn swap_entries(&mut self, o: &Obj, a: u64, b: u64) {
        let (ka, kb) = (
            o.tbl + KEYS + a * STRIDE,
            o.tbl + KEYS + b * STRIDE,
        );
        let (va, vb) = (
            (ka as i64 + VALUE) as u64,
            (kb as i64 + VALUE) as u64,
        );
        let (key_a, key_b) = (self.get(ka), self.get(kb));
        let (value_a, value_b) = (self.get(va), self.get(vb));
        self.put(ka, key_b);
        self.put(va, value_b);
        self.put(kb, key_a);
        self.put(vb, value_a);
    }

    /// The String object of `s`, written once and shared, as the SWF interns
    /// the names of its properties.
    fn intern(&mut self, s: &str) -> u64 {
        if let Some((_, addr)) = self.interned.iter().find(|(name, _)| name.as_str() == s) {
            return *addr;
        }
        let units: Vec<u16> = s.encode_utf16().collect();
        let buf = self.reserve(units.len() * 2);
        for (i, unit) in units.iter().enumerate() {
            let at = (buf - HEAP_BASE) as usize + i * 2;
            self.data[at..at + 2].copy_from_slice(&unit.to_le_bytes());
        }
        let so = self.reserve(STR_SIZE);
        self.put(so, self.str_vt);
        self.put(so + STR_BUF, buf);
        self.put(so + STR_LEN, units.len() as u64);
        self.interned.push((String::from(s), so));
        so
    }

    /// The atom of an interned string.
    fn string(&mut self, s: &str) -> u64 {
        self.intern(s) | atom::TAG_STRING
    }

    /// A float, which does not fit inside an atom and so lives beside it.
    fn double(&mut self, v: f64) -> u64 {
        let addr = self.reserve(8);
        self.put(addr, v.to_bits());
        addr | atom::TAG_DOUBLE
    }

    /// An empty object, with room for `capacity` properties.
    fn object(&mut self, capacity: u64) -> Obj {
        let tbl = self.reserve((KEYS + capacity * STRIDE) as usize);
        self.put(tbl, TBL_VT);
        self.put(tbl + TBL_CAPACITY, capacity);
        let so = self.reserve(SO_SIZE);
        self.put(so, SO_VT);
        self.put(so + SO_TBL, tbl);
        Obj { so, tbl, next: 0 }
    }

    /// Adds one entry whose key is `key_atom` as it is, not an interned
    /// String.
    fn set_raw_key(&mut self, o: &mut Obj, key_atom: u64, value: u64) {
        let key_addr = o.tbl + KEYS + o.next * STRIDE;
        o.next += 1;
        self.put(key_addr, key_atom);
        self.put((key_addr as i64 + VALUE) as u64, value);
    }

    /// Adds one property. The entries are written from index zero upward, as
    /// a table the player filled would be.
    fn set(&mut self, o: &mut Obj, key: &str, value: u64) {
        let key_addr = o.tbl + KEYS + o.next * STRIDE;
        o.next += 1;
        let key_atom = self.string(key);
        self.put(key_addr, key_atom);
        self.put((key_addr as i64 + VALUE) as u64, value);
    }
}

/// An integer, as the player stores it.
fn integer(v: i64) -> u64 {
    (v as u64) << 3
}

fn boolean(v: bool) -> u64 {
    if v {
        atom::TRUE
    } else {
        atom::FALSE
    }
}

// -- the DSL -----------------------------------------------------------------

fn given_a_heap() -> World {
    World::default()
}

/// What the heap must hold. The bytes are written once, by [`World::build`].
///
/// A description first, and the bytes at the end, because the objects cite
/// each other: the manager points at the game, and the game points back. One
/// single pass would mean patching what was already written.
struct World {
    manager: bool,
    game_over: bool,
    views: usize,
    second_game: bool,
    corpse: bool,
    another_build: bool,
    foreign_keys: bool,
    set_name: &'static str,
    dim: i64,
    level: i64,
    previous: i64,
    frame_timer: i64,
    game_timer: i64,
    /// Absent when the game does not carry the property at all.
    duration: Option<f64>,
    /// `Chrono.haltedTimer`, and `fl_stop` with it.
    halted: Option<i64>,
}

impl Default for World {
    fn default() -> Self {
        Self {
            manager: false,
            game_over: false,
            views: 0,
            second_game: false,
            corpse: false,
            another_build: false,
            foreign_keys: false,
            set_name: "xml_adventure",
            dim: 0,
            level: 2,
            previous: -1,
            frame_timer: 23_677,
            game_timer: 1_000,
            duration: Some(0.0),
            halted: None,
        }
    }
}

impl World {
    /// A game, and the `GameManager` that points at it.
    fn with_a_manager_and_a_game(mut self) -> Self {
        self.manager = true;
        self
    }

    /// A game alone. In production a heap always holds a `GameManager`, so a
    /// test that leaves it out exercises the fallback search on purpose.
    fn with_a_game(self) -> Self {
        self
    }

    /// The player has lost. `fl_gameOver` is true.
    fn that_is_over(mut self) -> Self {
        self.game_over = true;
        self
    }

    /// Three `View` objects of the same game.
    ///
    /// A view carries a `world` and points at the same `GameMechanics`, so it
    /// answers the anchor key exactly as the game does. It owns no
    /// `gameChrono`, which is the one difference.
    ///
    /// They are written before the game, so the search meets them first.
    fn and_three_views_of_that_game(mut self) -> Self {
        self.views = 3;
        self
    }

    /// A second game, which passes every rule the first one passes.
    fn and_a_second_game(mut self) -> Self {
        self.second_game = true;
        self
    }

    /// A game that is over, still in memory, and the manager that has moved
    /// on to the game which replaced it.
    ///
    /// The corpse comes first in memory, so the search meets it first. The
    /// manager carries no `fVersion`, so the search cannot find it by itself
    /// and has to fall back on the `world` key.
    fn and_a_corpse_the_manager_has_left(mut self) -> Self {
        self.corpse = true;
        self
    }

    fn in_world(mut self, name: &'static str) -> Self {
        self.set_name = name;
        self
    }

    fn at_level(mut self, level: i64) -> Self {
        self.level = level;
        self
    }

    fn with_frame_timer(mut self, ticks: i64) -> Self {
        self.frame_timer = ticks;
        self
    }

    fn with_game_timer(mut self, ticks: i64) -> Self {
        self.game_timer = ticks;
        self
    }

    /// `GameMode.duration`, in game cycles. It dates the start of the run.
    fn with_duration(mut self, cycles: f64) -> Self {
        self.duration = Some(cycles);
        self
    }

    /// A game that carries no `duration` at all.
    fn without_a_duration(mut self) -> Self {
        self.duration = None;
        self
    }

    /// The clock is stopped, and `haltedTimer` holds the time it stopped at.
    fn stopped_at(mut self, ms: i64) -> Self {
        self.halted = Some(ms);
        self
    }

    fn in_dimension(mut self, dim: i64) -> Self {
        self.dim = dim;
        self
    }

    /// A player who has another version of the plugin.
    ///
    /// The String vtable is elsewhere in the module, because the binary is
    /// another one. The reader has already proven the layout of the first
    /// build, so it trusts that layout and must find nothing here. Finding
    /// nothing is the rule: a layout that does not match decodes neighbouring
    /// bytes into plausible numbers, and a plausible level is worse than none.
    fn written_by_another_flash_build(mut self) -> Self {
        self.another_build = true;
        self
    }

    /// Each table starts with a key that is not a String object.
    ///
    /// The Linux player writes such keys: measured on a running game, the
    /// entry in front of `world` held a pointer to an object of another
    /// class. The base of a table must be found all the same.
    fn with_a_key_that_is_not_a_string_first(mut self) -> Self {
        self.foreign_keys = true;
        self
    }

    fn build(self) -> Fixture {
        // What the reader already knows. On another build, it knows the
        // layout of the first one, and the search never questions it.
        let known = Layout {
            module: (0, 0),
            str_vt: STR_VT - MODULE.0,
            str_buf: STR_BUF,
            str_len: STR_LEN,
            tbl_vt: TBL_VT - MODULE.0,
            profile: windows_x64(),
            so_tbl: SO_TBL,
        };
        let (str_vt, binary) = if self.another_build {
            (OTHER_STR_VT, Binary::proven_with(known))
        } else {
            (STR_VT, Binary::default())
        };
        let mut b = Bytes::new(str_vt);

        // Every object first, so that each one can cite the others.
        //
        // The order is the order of the addresses, and the search reads the
        // heap from the low addresses upward. The views come before the game
        // so that the search meets a view first.
        let mut manager = b.object(4);
        let mut views: Vec<Obj> = (0..self.views).map(|_| b.object(4)).collect();
        let mut corpse = self.corpse.then(|| b.object(12));
        let mut game_mode = b.object(12);
        let mut second = self.second_game.then(|| b.object(12));
        let mut mechanics = b.object(4);
        let mut chrono = b.object(4);

        if self.foreign_keys {
            let foreign = b.object(1).so | atom::TAG_STRING;
            for o in [&mut manager, &mut game_mode] {
                b.set_raw_key(o, foreign, integer(0));
            }
        }

        let keys = keys();
        let obfuscated = keys
            .worlds
            .iter()
            .find(|(_, clear)| clear.as_str() == self.set_name)
            .map_or(self.set_name, |(obf, _)| obf.as_str());
        let set_name = b.string(obfuscated);
        b.set(&mut mechanics, &keys.set_name, set_name);
        b.set(&mut mechanics, &keys.current_id, integer(self.level));
        b.set(&mut mechanics, &keys.previous_id, integer(self.previous));

        b.set(&mut chrono, &keys.frame_timer, integer(self.frame_timer));
        b.set(&mut chrono, &keys.game_timer, integer(self.game_timer));
        if let Some(ms) = self.halted {
            b.set(&mut chrono, &keys.fl_stop, boolean(true));
            b.set(&mut chrono, &keys.halted_timer, integer(ms));
        }

        // A view carries the anchor key and the same mechanics. It owns no
        // `gameChrono`, and that is the only thing that tells it apart.
        for view in &mut views {
            b.set(view, &keys.world, mechanics.atom());
        }

        for mode in [corpse.as_mut(), Some(&mut game_mode), second.as_mut()]
            .into_iter()
            .flatten()
        {
            b.set(mode, &keys.world, mechanics.atom());
            b.set(mode, &keys.game_chrono, chrono.atom());
            if let Some(cycles) = self.duration {
                let duration = b.double(cycles);
                b.set(mode, &keys.duration, duration);
            }
            b.set(mode, &keys.fl_lock, boolean(false));
            b.set(mode, &keys.current_dim, integer(self.dim));
            if self.game_over {
                b.set(mode, &keys.fl_game_over, boolean(true));
            }
        }

        if self.manager || self.corpse {
            if self.manager {
                // `fVersion` is what the search looks for: the GameManager is
                // the only class that carries it.
                let version = b.string("1.0");
                b.set(&mut manager, &keys.f_version, version);
            }
            b.set(&mut manager, &keys.current, game_mode.atom());
            b.set(&mut game_mode, &keys.manager, manager.atom());
            // The corpse still names the manager. The manager no longer names
            // it, and that is what tells the two apart.
            if let Some(dead) = corpse.as_mut() {
                b.set(dead, &keys.manager, manager.atom());
            }
        }

        Fixture {
            bytes: b,
            game_mode: game_mode.tbl,
            mode: game_mode,
            manager,
            mechanics,
            chrono,
            anchor: Anchor::default(),
            binary,
        }
    }
}

/// The bytes, and what the builder knows about them.
struct Fixture {
    bytes: Bytes,
    /// The address of the `GameMode` property table the reader must return.
    game_mode: u64,
    mode: Obj,
    manager: Obj,
    mechanics: Obj,
    chrono: Obj,
    anchor: Anchor,
    binary: Binary,
}

impl Fixture {
    /// The heap as it stands. A mutation changes the bytes, so the heap is
    /// built again for every look and every reading.
    fn heap(&self) -> Heap {
        Heap::default().with_range(HEAP_BASE, self.bytes.data.clone())
    }

    fn ranges(&self) -> Vec<(u64, u64)> {
        vec![(HEAP_BASE, HEAP_BASE + self.bytes.data.len() as u64)]
    }

    /// The memory under the game was recycled: `setName` no longer names a
    /// world the game ships.
    fn the_world_is_no_longer_known(&mut self) {
        let keys = keys();
        let unknown = self.bytes.string("not_a_world");
        self.bytes.replace(&self.mechanics, &keys.set_name, unknown);
    }

    fn the_level_becomes(&mut self, level: i64) {
        let keys = keys();
        self.bytes
            .replace(&self.mechanics, &keys.current_id, integer(level));
    }

    /// The `gameChrono` of the game points at memory that cannot be read.
    fn the_chrono_is_lost(&mut self) {
        let keys = keys();
        let nowhere = (HEAP_BASE + 0x100_0000) | atom::TAG_OBJECT;
        self.bytes.replace(&self.mode, &keys.game_chrono, nowhere);
    }

    /// The game rebuilt its table, and `world` is not in the same entry any
    /// more. The index the last reading kept is now wrong.
    fn the_world_property_moves_slot(&mut self) {
        self.bytes.swap_entries(&self.mode, 0, 1);
    }

    /// The player starts another game. The old `GameMode` stays in memory,
    /// still readable and still plausible, and the manager points at the new
    /// one.
    fn the_game_is_replaced(&mut self) {
        let keys = keys();
        let mut new_mode = self.bytes.object(12);
        let duration = self.bytes.double(0.0);
        let world = self.mechanics.atom();
        let chrono = self.chrono.atom();
        self.bytes.set(&mut new_mode, &keys.world, world);
        self.bytes.set(&mut new_mode, &keys.game_chrono, chrono);
        self.bytes.set(&mut new_mode, &keys.duration, duration);
        self.bytes.set(&mut new_mode, &keys.fl_lock, boolean(false));
        let manager = self.manager.atom();
        self.bytes.set(&mut new_mode, &keys.manager, manager);
        self.bytes
            .replace(&self.manager, &keys.current, new_mode.atom());
        self.mode = new_mode;
        self.game_mode = new_mode.tbl;
    }
}

/// Looks for the game, and keeps what the search learned.
///
/// The anchor lives in the fixture, so a second call is the same search
/// looking again. That is what
/// `reader.find::the-same-game-when-looking-again` asks about.
fn when_we_look_for_the_game(f: &mut Fixture) -> Option<Game> {
    let (heap, ranges) = (f.heap(), f.ranges());
    resolve(
        &heap,
        MODULE,
        &mut f.anchor,
        &mut f.binary,
        &ranges,
        &keys(),
        &mut Silent,
    )
}

/// Reads the state of a game already found.
fn when_we_read_it(f: &Fixture, game: &mut Game) -> Option<State> {
    game.read(&f.heap(), &keys()).map(|(state, _)| state)
}

fn then_nothing_is_read(state: Option<State>) {
    assert!(
        state.is_none(),
        "the reader produced a state it should have refused: {state:?}"
    );
}

/// A state the reader produced, and the values a test may name in it.
struct StateCheck(State);

fn then_the_state(state: Option<State>) -> StateCheck {
    StateCheck(state.expect("the reader read no state"))
}

impl StateCheck {
    fn level(self, level: i64) -> Self {
        assert_eq!(self.0.level, level, "level");
        self
    }

    fn previous_level(self, previous: i64) -> Self {
        assert_eq!(self.0.previous, previous, "previous level");
        self
    }

    fn dimension(self, dim: i64) -> Self {
        assert_eq!(self.0.dim, dim, "dimension");
        self
    }

    fn chrono_ms(self, ms: i64) -> Self {
        assert_eq!(self.0.chrono_ms, ms, "chrono");
        self
    }

    fn frame_timer(self, ticks: i64) -> Self {
        assert_eq!(self.0.frame_timer, ticks, "frame timer");
        self
    }

    fn duration_ms(self, ms: i64) -> Self {
        assert_eq!(self.0.duration_ms, ms, "duration");
        self
    }
}

fn then_the_world_is(game: &Game, name: &str) {
    assert_eq!(game.set, name, "world");
}

fn then_nothing_is_found(found: Option<Game>) {
    assert_eq!(
        found.map(|g| g.game_mode),
        None,
        "the reader found a game where there is none to find"
    );
}

/// Asserts that the reader found the game the builder wrote, and hands it
/// back, so that a test may then read it.
fn then_the_game_is_found(f: &Fixture, found: Option<Game>) -> Game {
    let game = found.expect("the reader found no game");
    assert_eq!(
        game.game_mode, f.game_mode,
        "the game found is not the GameMode the builder wrote"
    );
    game
}


// @spec reader.find::a-game-and-its-manager
#[test]
fn finds_a_game_through_its_manager() {
    let mut heap = given_a_heap().with_a_manager_and_a_game().build();

    let found = when_we_look_for_the_game(&mut heap);

    then_the_game_is_found(&heap, found);
}

// @spec reader.find::an-orphan-game
#[test]
fn finds_a_game_that_has_no_manager() {
    let mut heap = given_a_heap().with_a_game().build();

    let found = when_we_look_for_the_game(&mut heap);

    then_the_game_is_found(&heap, found);
}

// @spec reader.find::rejects-a-game-already-over
#[test]
fn finds_nothing_when_the_game_is_already_over() {
    let mut heap = given_a_heap()
        .with_a_manager_and_a_game()
        .that_is_over()
        .build();

    let found = when_we_look_for_the_game(&mut heap);

    then_nothing_is_found(found);
}

// @spec reader.find::the-game-not-one-of-its-views
#[test]
fn finds_the_game_and_not_one_of_its_views() {
    let mut heap = given_a_heap()
        .with_a_game()
        .and_three_views_of_that_game()
        .build();

    let found = when_we_look_for_the_game(&mut heap);

    then_the_game_is_found(&heap, found);
}

// @spec reader.find::a-parallel-world
#[test]
fn finds_a_game_in_a_parallel_world() {
    let mut heap = given_a_heap()
        .with_a_manager_and_a_game()
        .in_world("xml_deepnight")
        .in_dimension(1)
        .build();

    let found = when_we_look_for_the_game(&mut heap);

    let mut game = then_the_game_is_found(&heap, found);
    then_the_world_is(&game, "xml_deepnight");
    then_the_state(when_we_read_it(&heap, &mut game)).dimension(1);
}

// @spec reader.find::the-same-game-when-looking-again
#[test]
fn finds_the_same_game_when_it_looks_again() {
    let mut heap = given_a_heap().with_a_manager_and_a_game().build();
    let first = when_we_look_for_the_game(&mut heap);
    then_the_game_is_found(&heap, first);

    let again = when_we_look_for_the_game(&mut heap);

    then_the_game_is_found(&heap, again);
}

// @spec reader.find::the-new-game-not-the-corpse
#[test]
fn finds_the_new_game_and_not_the_corpse() {
    let mut heap = given_a_heap().with_a_manager_and_a_game().build();
    let first = when_we_look_for_the_game(&mut heap);
    then_the_game_is_found(&heap, first);
    heap.the_game_is_replaced();

    let found = when_we_look_for_the_game(&mut heap);

    then_the_game_is_found(&heap, found);
}

// @spec reader.find::nothing-on-another-flash-build
#[test]
fn test_heap_finds_nothing_in_a_heap_written_by_another_flash_build() {
    let mut heap = given_a_heap()
        .with_a_manager_and_a_game()
        .written_by_another_flash_build()
        .build();

    let found = when_we_look_for_the_game(&mut heap);

    then_nothing_is_found(found);
}

// @spec reader.find::a-key-that-is-not-a-string
#[test]
fn test_heap_finds_a_game_when_a_key_is_not_a_string() {
    let mut heap = given_a_heap()
        .with_a_manager_and_a_game()
        .with_a_key_that_is_not_a_string_first()
        .build();

    let found = when_we_look_for_the_game(&mut heap);

    then_the_game_is_found(&heap, found);
}

// @spec reader.read::the-nominal-state
#[test]
fn reads_the_state_of_the_game_in_progress() {
    let mut heap = given_a_heap()
        .with_a_manager_and_a_game()
        .in_world("xml_adventure")
        .at_level(2)
        .with_frame_timer(23_677)
        .with_game_timer(1_000)
        .with_duration(320.0)
        .build();
    let found = when_we_look_for_the_game(&mut heap);
    let mut game = then_the_game_is_found(&heap, found);

    let state = when_we_read_it(&heap, &mut game);

    then_the_world_is(&game, "xml_adventure");
    then_the_state(state)
        .level(2)
        .previous_level(-1)
        .dimension(0)
        .frame_timer(23_677)
        .chrono_ms(22_677)
        .duration_ms(10_000);
}

// @spec reader.read::rejects-an-unknown-world
#[test]
fn refuses_to_read_a_world_it_does_not_know() {
    let mut heap = given_a_heap().with_a_manager_and_a_game().build();
    let found = when_we_look_for_the_game(&mut heap);
    let mut game = then_the_game_is_found(&heap, found);
    heap.the_world_is_no_longer_known();

    let state = when_we_read_it(&heap, &mut game);

    then_nothing_is_read(state);
}

// @spec reader.read::rejects-a-level-out-of-bounds
#[test]
fn refuses_to_read_a_level_out_of_bounds() {
    let mut heap = given_a_heap().with_a_manager_and_a_game().build();
    let found = when_we_look_for_the_game(&mut heap);
    let mut game = then_the_game_is_found(&heap, found);
    heap.the_level_becomes(300);

    let state = when_we_read_it(&heap, &mut game);

    then_nothing_is_read(state);
}

// @spec reader.read::rejects-a-missing-duration
#[test]
fn refuses_to_read_a_game_whose_duration_is_missing() {
    let mut heap = given_a_heap()
        .with_a_manager_and_a_game()
        .without_a_duration()
        .build();
    let found = when_we_look_for_the_game(&mut heap);
    let mut game = then_the_game_is_found(&heap, found);

    let state = when_we_read_it(&heap, &mut game);

    then_nothing_is_read(state);
}

// @spec reader.read::rejects-a-missing-chrono
#[test]
fn refuses_to_read_a_game_whose_chrono_is_missing() {
    let mut heap = given_a_heap().with_a_manager_and_a_game().build();
    let found = when_we_look_for_the_game(&mut heap);
    let mut game = then_the_game_is_found(&heap, found);
    heap.the_chrono_is_lost();

    let state = when_we_read_it(&heap, &mut game);

    then_nothing_is_read(state);
}

// @spec reader.read::the-halted-clock-when-stopped
#[test]
fn reads_the_halted_clock_when_the_game_is_stopped() {
    let mut heap = given_a_heap()
        .with_a_manager_and_a_game()
        .with_frame_timer(23_677)
        .stopped_at(12_000)
        .build();
    let found = when_we_look_for_the_game(&mut heap);
    let mut game = then_the_game_is_found(&heap, found);

    let state = when_we_read_it(&heap, &mut game);

    then_the_state(state).chrono_ms(12_000).frame_timer(23_677);
}

// @spec reader.read::a-property-that-moved-slot
#[test]
fn reads_a_property_that_moved_slot() {
    let mut heap = given_a_heap()
        .with_a_manager_and_a_game()
        .at_level(2)
        .build();
    let found = when_we_look_for_the_game(&mut heap);
    let mut game = then_the_game_is_found(&heap, found);
    // The first reading keeps the index of the entry.
    then_the_state(when_we_read_it(&heap, &mut game)).level(2);
    heap.the_world_property_moves_slot();

    let state = when_we_read_it(&heap, &mut game);

    then_the_state(state).level(2);
}

// @spec reader.find::the-mode-the-manager-owns
#[test]
fn finds_the_mode_the_manager_owns() {
    let mut heap = given_a_heap()
        .with_a_game()
        .and_a_corpse_the_manager_has_left()
        .build();

    let found = when_we_look_for_the_game(&mut heap);

    then_the_game_is_found(&heap, found);
}

// @spec reader.find::the-first-of-two-candidates
#[test]
fn finds_the_first_of_two_candidates() {
    let mut heap = given_a_heap().with_a_game().and_a_second_game().build();

    let found = when_we_look_for_the_game(&mut heap);

    then_the_game_is_found(&heap, found);
}

#[test]
fn scenarios_finds_nothing_in_a_heap_written_by_another_flash_build() {
    let mut heap = given_a_heap()
        .with_a_manager_and_a_game()
        .written_by_another_flash_build()
        .build();

    let found = when_we_look_for_the_game(&mut heap);

    then_nothing_is_found(found);
}

#[test]
fn scenarios_finds_a_game_when_a_key_is_not_a_string() {
    let mut heap = given_a_heap()
        .with_a_manager_and_a_game()
        .with_a_key_that_is_not_a_string_first()
        .build();

    let found = when_we_look_for_the_game(&mut heap);

    then_the_game_is_found(&heap, found);
}

#[test]
fn finds_nothing_in_an_empty_heap() {
    let found = resolve(
        &Heap::default(),
        (0x1000, 0x1000),
        &mut Anchor::default(),
        &mut Binary::default(),
        &[],
        &keys(),
        &mut Silent,
    );

    assert!(found.is_none());
}


// -- the same heap, packed as a capture of a real game is packed -----------------

/// The fixture's bytes as the capture tool writes them: `heap.bin.gz` holds
/// the region that was kept, and the index also lists a region that was
/// emptied. `state` is what the game showed, as the index writes it.
fn packed_capture(f: &Fixture, state: &str) -> (String, Vec<u8>) {
    let bytes = &f.bytes.data;
    let mut index = String::new();
    index.push_str("# written by the capture tool\n");
    index.push_str(&format!("plugin {:#x} {:#x}\n", MODULE.0, MODULE.1));
    index.push_str(&format!("state {state} note=the-clocks-are-not-exact\n"));
    index.push_str(&format!("region {:#x} {} 0\n", HEAP_BASE, bytes.len()));
    index.push_str(&format!("region {:#x} 4096 -\n", HEAP_BASE + 0x100_0000));
    let mut gz = GzEncoder::new(Vec::new(), Compression::default());
    gz.write_all(bytes).unwrap();
    (index, gz.finish().unwrap())
}

fn resolve_in(capture: &Capture) -> Option<Game> {
    resolve(
        capture,
        capture.module(),
        &mut Anchor::default(),
        &mut Binary::default(),
        &capture.ranges(),
        &keys(),
        &mut Silent,
    )
}

#[test]
fn reads_a_game_out_of_a_packed_capture() {
    let f = given_a_heap()
        .with_a_manager_and_a_game()
        .in_world("xml_adventure")
        .at_level(7)
        .in_dimension(1)
        .build();
    let (index, packed) = packed_capture(&f, "level=7 set=xml_adventure dim=1");
    let capture = Capture::unpack(&index, &packed).expect("the capture did not unpack");

    let mut game = resolve_in(&capture).expect("the reader found no game in the capture");
    let (state, world) = game
        .read(&capture, &keys())
        .expect("the reader read no state");

    let set = String::from_utf8(capture.set().to_vec()).unwrap();
    assert_eq!(game.set, set, "world");
    assert_eq!(Some(world), GameWorld::from_set_name(&set), "world of the level");
    assert_eq!(state.level, capture.level(), "level");
    assert_eq!(state.dim, capture.dim(), "dimension");
}

#[test]
fn a_packed_game_that_crosses_a_level_splits() {
    let f = given_a_heap().with_a_manager_and_a_game().at_level(3).build();
    let (index, packed) = packed_capture(&f, "level=3 set=xml_adventure dim=0");
    let capture = Capture::unpack(&index, &packed).expect("the capture did not unpack");
    let mut game = resolve_in(&capture).expect("the reader found no game in the capture");
    let (state, _) = game.read(&capture, &keys()).expect("the reader read no state");

    // The policy acts on a confirmed level, so every state is read twice.
    let mut policy = Policy::new();
    policy.tick(TimerState::Running, Some(state));
    policy.tick(TimerState::Running, Some(state));

    // The next level, as the game would write it one second later.
    let next = State {
        level: state.level + 1,
        previous: state.level,
        chrono_ms: state.chrono_ms + 1_000,
        frame_timer: state.frame_timer + 32,
        ..state
    };
    policy.tick(TimerState::Running, Some(next));
    let actions = policy.tick(TimerState::Running, Some(next));

    assert!(actions.split, "a crossing of one level must split");
    assert_eq!(actions.skips, 0, "it must skip nothing");
}

#[test]
fn finds_nothing_when_the_regions_of_the_game_read_as_zeros() {
    let f = given_a_heap().with_a_manager_and_a_game().build();
    let (index, packed) = packed_capture(&f, "level=2 set=xml_adventure dim=0");
    let mut capture = Capture::unpack(&index, &packed).expect("the capture did not unpack");
    assert!(resolve_in(&capture).is_some(), "the game is not there to begin with");

    capture.mask(vec![HEAP_BASE]);
    assert!(resolve_in(&capture).is_none(), "a game was found in zeros");

    capture.mask(vec![HEAP_BASE + 0x100_0000]);
    assert!(resolve_in(&capture).is_some(), "the emptied region is not the game");
}


// -- one process of the player, tick after tick -----------------------------------

fn heap_size(f: &Fixture) -> u64 {
    f.bytes.data.len() as u64
}

#[test]
fn a_session_searches_the_heap_once_and_then_reads_the_game() {
    let f = given_a_heap().with_a_manager_and_a_game().at_level(5).build();
    let (heap, ranges) = (f.heap(), f.ranges());
    let mut session = Session::new();
    let mut binary = Binary::default();

    // Nothing learned yet: the fast path has no manager to follow.
    assert!(session.look(&heap, &keys()), "the fast path found a game it knew nothing of");
    session.search(&heap, MODULE, &mut binary, &ranges, heap_size(&f), &keys(), &mut Silent);
    assert!(session.holds_a_game(), "the search found no game");

    // A game held needs no heap.
    assert!(!session.look(&heap, &keys()));

    let mut policy = Policy::new();
    let step = session.step(&heap, &keys(), &mut policy, TimerState::NotRunning);
    let (state, world) = step.read.expect("the game was not read");
    assert_eq!(state.level, 5);
    assert_eq!(Some(world), GameWorld::from_set_name("xml_adventure"));
    assert!(!step.actions.drop_resolution);
    assert!(session.holds_a_game());
}

#[test]
fn a_session_drops_a_game_it_can_no_longer_read_and_finds_it_again_by_its_manager() {
    let mut f = given_a_heap().with_a_manager_and_a_game().build();
    let mut session = Session::new();
    let mut binary = Binary::default();
    session.look(&f.heap(), &keys());
    session.search(&f.heap(), MODULE, &mut binary, &f.ranges(), heap_size(&f), &keys(), &mut Silent);
    assert!(session.holds_a_game());

    let mut policy = Policy::new();
    f.the_chrono_is_lost();
    let step = session.step(&f.heap(), &keys(), &mut policy, TimerState::NotRunning);
    assert!(step.read.is_none(), "a game without a chrono was read");
    assert!(step.actions.drop_resolution, "the game was not dropped");
    assert!(!session.holds_a_game());

    // The manager is still known, and it now leads to the new game.
    f.the_game_is_replaced();
    assert!(!session.look(&f.heap(), &keys()), "the fast path did not follow the manager");
    assert!(session.holds_a_game());
}

#[test]
fn a_session_announces_the_start_of_a_run_once() {
    let f = given_a_heap().with_a_manager_and_a_game().build();
    let heap = f.heap();
    let mut session = Session::new();
    let mut binary = Binary::default();
    session.look(&heap, &keys());
    session.search(&heap, MODULE, &mut binary, &f.ranges(), heap_size(&f), &keys(), &mut Silent);

    let mut policy = Policy::new();
    let mut announced = 0;
    for _ in 0..4 {
        let step = session.step(&heap, &keys(), &mut policy, TimerState::Running);
        if step.announce_ms.is_some() {
            assert_eq!(step.announce_ms, step.actions.real_time_ms);
            announced += 1;
        }
    }
    assert!(announced <= 1, "the start was announced {announced} times");
}


// -- what the search remembers from one attempt to the next ------------------------

/// The outcomes a search reports, and the anchors it drops.
#[derive(Default)]
struct Outcomes {
    outcomes: Vec<&'static str>,
    dropped: usize,
}

impl SearchLog for Outcomes {
    fn outcome(&mut self, outcome: &'static str) {
        self.outcomes.push(outcome);
    }

    fn silent_anchor_dropped(&mut self) {
        self.dropped += 1;
    }
}

impl Outcomes {
    fn count(&self, outcome: &str) -> usize {
        self.outcomes.iter().filter(|o| **o == outcome).count()
    }
}

#[test]
fn an_unchanged_memory_map_is_searched_again_once_in_eight_attempts() {
    let f = given_a_heap().with_a_manager_and_a_game().that_is_over().build();
    let (heap, ranges) = (f.heap(), f.ranges());
    let mut anchor = Anchor::default();
    let mut binary = Binary::default();
    let mut log = Outcomes::default();
    for _ in 0..9 {
        let found = resolve(&heap, MODULE, &mut anchor, &mut binary, &ranges, &keys(), &mut log);
        assert!(found.is_none());
    }
    // The first attempt searches; of the eight that see no new range, seven
    // stop at once and the eighth searches again.
    assert_eq!(log.count("unchanged_ranges"), 7);
}

#[test]
fn a_manager_that_never_leads_to_a_game_is_dropped_after_a_long_silence() {
    let f = given_a_heap().with_a_manager_and_a_game().that_is_over().build();
    let heap = f.heap();
    let mut anchor = Anchor::default();
    let mut binary = Binary::default();
    let mut log = Outcomes::default();
    // A new range on every attempt, so that none is stopped by an unchanged
    // memory map. The range cannot be read.
    let ranges_at = |k: u64| {
        let mut r = f.ranges();
        r.push((0x7000_0000 + k * 0x1000, 0x7000_0000 + k * 0x1000 + 0x100));
        r
    };
    assert!(resolve(&heap, MODULE, &mut anchor, &mut binary, &ranges_at(0), &keys(), &mut log).is_none());
    assert_eq!(log.count("manager_only"), 1, "the manager was not found");
    for k in 1..30 {
        resolve(&heap, MODULE, &mut anchor, &mut binary, &ranges_at(k), &keys(), &mut log);
        assert_eq!(log.dropped, 0, "the manager was dropped after {k} attempts");
    }
    resolve(&heap, MODULE, &mut anchor, &mut binary, &ranges_at(30), &keys(), &mut log);
    assert_eq!(log.dropped, 1, "the silent manager was kept");
    // With no manager, the next attempt searches for it again.
    resolve(&heap, MODULE, &mut anchor, &mut binary, &ranges_at(31), &keys(), &mut log);
    assert_eq!(log.count("manager_only"), 2);
}

/// A listener that counts the ticks a search gives back.
#[derive(Default)]
struct Pauses {
    due: u64,
}

impl SearchLog for Pauses {
    fn tick_given_back(&mut self) {
        self.due += 1;
    }
}

/// Twelve MiB of memory that holds nothing, swept before the heap of the
/// game.
const PADDING_BASE: u64 = 0x0800_0000;
const PADDING: usize = 12 << 20;

fn behind_padding(f: &Fixture) -> (Heap, Vec<(u64, u64)>) {
    let heap = f.heap().with_range(PADDING_BASE, vec![0; PADDING]);
    let mut ranges = vec![(PADDING_BASE, PADDING_BASE + PADDING as u64)];
    ranges.extend(f.ranges());
    (heap, ranges)
}

#[test]
fn a_long_search_gives_the_tick_back_and_finds_what_one_pass_finds() {
    let f = given_a_heap().with_a_manager_and_a_game().at_level(5).build();
    let (heap, ranges) = behind_padding(&f);

    let mut anchor = Anchor::default();
    let mut binary = Binary::default();
    let mut at_once = Pauses::default();
    let found = resolve(&heap, MODULE, &mut anchor, &mut binary, &ranges, &keys(), &mut at_once)
        .expect("one pass found no game");

    let mut anchor = Anchor::default();
    let mut binary = Binary::default();
    let mut log = Pauses::default();
    let mut pauses = 0;
    let mut searching = Search::start(&heap, MODULE, &mut anchor, &mut binary, &ranges, &keys(), &mut log);
    let game = loop {
        match searching {
            Searching::Over(game) => break game,
            Searching::Going(search) => {
                pauses += 1;
                searching = search.step(&heap, MODULE, &mut anchor, &mut binary, &keys(), &mut log);
            }
        }
    }
    .expect("the search in steps found no game");

    assert!(pauses > 0, "twelve MiB were swept without a pause");
    assert_eq!(pauses, log.due);
    assert_eq!(log.due, at_once.due);
    assert_eq!(game.game_mode, found.game_mode);
    assert_eq!(game.set, found.set);
}

#[test]
fn a_session_goes_on_with_its_search_after_each_pause() {
    let f = given_a_heap().with_a_manager_and_a_game().at_level(5).build();
    let (heap, ranges) = behind_padding(&f);
    let mut session = Session::new();
    let mut binary = Binary::default();
    let mut log = Pauses::default();

    assert!(session.look(&heap, &keys()));
    let mut paused = session.search(&heap, MODULE, &mut binary, &ranges, PADDING as u64, &keys(), &mut log);
    assert!(paused, "twelve MiB were swept without a pause");
    let mut pauses = 0;
    while paused {
        assert!(!session.holds_a_game());
        pauses += 1;
        paused = session.resume(&heap, MODULE, &mut binary, &keys(), &mut log);
    }
    assert_eq!(pauses, log.due);
    assert!(session.holds_a_game(), "the search found no game");

    let mut policy = Policy::new();
    let step = session.step(&heap, &keys(), &mut policy, TimerState::NotRunning);
    assert_eq!(step.read.expect("the game was not read").0.level, 5);
}

#[test]
fn a_session_ticks_the_policy_with_a_game_whose_duration_is_huge() {
    let f = given_a_heap().with_a_manager_and_a_game().with_duration(1e30).build();
    let heap = f.heap();
    let mut session = Session::new();
    let mut binary = Binary::default();
    session.look(&heap, &keys());
    assert!(!session.search(&heap, MODULE, &mut binary, &f.ranges(), heap_size(&f), &keys(), &mut Silent));
    assert!(session.holds_a_game());

    let mut policy = Policy::new();
    let step = session.step(&heap, &keys(), &mut policy, TimerState::NotRunning);
    let (state, _) = step.read.expect("the game was not read");
    assert_eq!(state.duration_ms, i64::MAX);
    assert!(!step.actions.drop_resolution, "a game read was dropped");
    assert!(session.holds_a_game());
}
