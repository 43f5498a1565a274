//! Where the player is: a level, inside the numbering of one world.
//!
//! `currentId` alone is not a place. Each world -- the adventure, and every
//! parallel dimension -- numbers its levels on its own, and the same number
//! names two unrelated levels in two worlds. So a level number never travels
//! without the world it belongs to.
use vstd::prelude::*;

use crate::policy::COUNTER_LIMIT;
use crate::text::same_text;

verus! {

/// A set of levels, as `GameMechanics.setName` names it.
#[derive(Copy, Clone, Debug, PartialEq, Eq, Structural)]
pub enum World {
    /// `xml_adventure`: the main world, where a run starts and ends.
    Adventure,
    /// `xml_deepnight`: the parallel dimensions of the adventure.
    Deepnight,
    Hiko,
    Ayame,
    Hk,
}

/// The `setName` of a world, as the game writes it.
pub open spec fn set_name_of(world: World) -> Seq<char> {
    match world {
        World::Adventure => "xml_adventure"@,
        World::Deepnight => "xml_deepnight"@,
        World::Hiko => "xml_hiko"@,
        World::Ayame => "xml_ayame"@,
        World::Hk => "xml_hk"@,
    }
}

/// The world a `setName` names, or `None` for a name we do not know.
pub open spec fn world_named(name: Seq<char>) -> Option<World> {
    if name == "xml_adventure"@ {
        Some(World::Adventure)
    } else if name == "xml_deepnight"@ {
        Some(World::Deepnight)
    } else if name == "xml_hiko"@ {
        Some(World::Hiko)
    } else if name == "xml_ayame"@ {
        Some(World::Ayame)
    } else if name == "xml_hk"@ {
        Some(World::Hk)
    } else {
        None
    }
}

/// The slot of a world in the list of worlds.
pub open spec fn world_index(world: World) -> int {
    match world {
        World::Adventure => 0,
        World::Deepnight => 1,
        World::Hiko => 2,
        World::Ayame => 3,
        World::Hk => 4,
    }
}

impl World {
    /// The world a `setName` names, or `None` for a name we do not know.
    pub fn from_set_name(name: &str) -> (w: Option<World>)
        ensures
            w == world_named(name@),
    {
        if same_text(name, "xml_adventure") {
            Some(World::Adventure)
        } else if same_text(name, "xml_deepnight") {
            Some(World::Deepnight)
        } else if same_text(name, "xml_hiko") {
            Some(World::Hiko)
        } else if same_text(name, "xml_ayame") {
            Some(World::Ayame)
        } else if same_text(name, "xml_hk") {
            Some(World::Hk)
        } else {
            None
        }
    }

    /// The `setName` of this world, as the game writes it.
    pub fn set_name(self) -> (name: &'static str)
        ensures
            name@ == set_name_of(self),
    {
        match self {
            World::Adventure => "xml_adventure",
            World::Deepnight => "xml_deepnight",
            World::Hiko => "xml_hiko",
            World::Ayame => "xml_ayame",
            World::Hk => "xml_hk",
        }
    }

    fn index(self) -> (i: usize)
        ensures
            i == world_index(self),
    {
        match self {
            World::Adventure => 0,
            World::Deepnight => 1,
            World::Hiko => 2,
            World::Ayame => 3,
            World::Hk => 4,
        }
    }
}

impl Default for World {
    fn default() -> (w: World)
        ensures
            w == World::Adventure,
    {
        World::Adventure
    }
}

/// A world shows the set name it was read from, and a set name names one
/// world.
pub proof fn a_world_is_named_by_its_set_name(world: World)
    ensures
        world_named(set_name_of(world)) == Some(world),
{
    reveal_strlit("xml_adventure");
    reveal_strlit("xml_deepnight");
    reveal_strlit("xml_hiko");
    reveal_strlit("xml_ayame");
    reveal_strlit("xml_hk");
    assert("xml_adventure"@[4] != "xml_deepnight"@[4]);
    assert("xml_adventure"@.len() == 13 && "xml_deepnight"@.len() == 13);
    assert("xml_hiko"@.len() == 8 && "xml_ayame"@.len() == 9 && "xml_hk"@.len() == 6);
}

/// One level: a world, and `currentId` inside it.
#[derive(Copy, Clone, Debug, PartialEq, Eq, Structural)]
pub struct Level {
    pub world: World,
    pub id: i64,
}

impl Level {
    pub fn new(world: World, id: i64) -> (l: Level)
        ensures
            l == (Level { world, id }),
    {
        Level { world, id }
    }
}

impl Default for Level {
    fn default() -> (l: Level)
        ensures
            l == (Level { world: World::Adventure, id: 0 }),
    {
        Level { world: World::Adventure, id: 0 }
    }
}

/// A move the splits must follow.
#[derive(Copy, Clone, Debug, PartialEq, Eq, Structural)]
pub enum Crossing {
    /// Forward inside one world, by this many levels.
    Forward(i64),
    /// Into another world. The two numbers share no numbering, so the move
    /// has no size.
    OtherWorld,
}

/// The level the player is on, and where they left each world.
#[derive(Clone, Debug)]
pub struct Route {
    here: Option<Level>,
    /// The level each world showed when the player last left it.
    left: [Option<i64>; 5],
}

/// What a `Route` holds.
pub ghost struct RouteView {
    pub here: Option<Level>,
    pub left: Seq<Option<i64>>,
}

impl View for Route {
    type V = RouteView;

    closed spec fn view(&self) -> RouteView {
        RouteView { here: self.here, left: self.left@ }
    }
}

/// A level number the route can subtract from another.
pub open spec fn level_in_range(level: Level) -> bool {
    -COUNTER_LIMIT <= level.id <= COUNTER_LIMIT
}

impl RouteView {
    pub open spec fn wf(self) -> bool {
        &&& self.left.len() == 5
        &&& (self.here matches Some(h) ==> level_in_range(h))
    }

    /// The player is read on `level`: the route that follows, and the
    /// crossing, if it is one.
    ///
    /// Back in a world, the game first shows the level the player left it
    /// from, then the level they arrive on. That first read is not a place the
    /// player reaches: it is ignored, and the crossing is measured from the
    /// world they come from. Inside one world, only forward counts.
    pub open spec fn entered(self, level: Level) -> (RouteView, Option<Crossing>) {
        match self.here {
            None => (RouteView { here: Some(level), ..self }, None),
            Some(here) => {
                if level.world != here.world {
                    if self.left[world_index(level.world)] == Some(level.id) {
                        (self, None)
                    } else {
                        (
                            RouteView {
                                here: Some(level),
                                left: self.left.update(world_index(here.world), Some(here.id)),
                            },
                            Some(Crossing::OtherWorld),
                        )
                    }
                } else {
                    (
                        RouteView { here: Some(level), ..self },
                        if level.id > here.id {
                            Some(Crossing::Forward((level.id - here.id) as i64))
                        } else {
                            None
                        },
                    )
                }
            },
        }
    }
}

impl Route {
    /// A route that has been nowhere yet.
    pub fn new() -> (r: Route)
        ensures
            r@.wf(),
            r@.here is None,
            r@.left == seq![None::<i64>, None, None, None, None],
    {
        let r = Route { here: None, left: [None, None, None, None, None] };
        assert(r@.left =~= seq![None::<i64>, None, None, None, None]);
        r
    }

    /// The player is read on `level`. Is that a crossing?
    pub fn enter(&mut self, level: Level) -> (c: Option<Crossing>)
        requires
            old(self)@.wf(),
            level_in_range(level),
        ensures
            final(self)@.wf(),
            (final(self)@, c) == old(self)@.entered(level),
    {
        let here = match self.here {
            None => {
                self.here = Some(level);
                return None;
            },
            Some(here) => here,
        };
        if level.world != here.world {
            if self.left[level.world.index()] == Some(level.id) {
                return None;
            }
            self.left[here.world.index()] = Some(here.id);
            self.here = Some(level);
            return Some(Crossing::OtherWorld);
        }
        self.here = Some(level);
        if level.id > here.id {
            Some(Crossing::Forward(level.id - here.id))
        } else {
            None
        }
    }
}

impl Default for Route {
    fn default() -> (r: Route)
        ensures
            r@.wf(),
            r@.here is None,
    {
        Route::new()
    }
}

/// Only forward counts: a crossing inside one world is a move to a higher
/// level, and the route always follows the level read -- but the first read
/// of a world the player comes back to.
pub proof fn a_crossing_moves_forward(route: RouteView, level: Level)
    requires
        route.wf(),
        level_in_range(level),
    ensures
        ({
            let (next, crossing) = route.entered(level);
            &&& next.wf()
            &&& crossing matches Some(Crossing::Forward(n)) ==> n > 0
            &&& next.here == Some(level) || next == route
        }),
{
}


/// Each world has the set name the game writes for it, and each of those
/// names names that world: `xml_adventure` is the main world, `xml_deepnight`
/// its parallel dimensions, then `xml_hiko`, `xml_ayame` and `xml_hk`.
pub proof fn each_world_has_its_own_set_name()
    ensures
        set_name_of(World::Adventure) == "xml_adventure"@,
        set_name_of(World::Deepnight) == "xml_deepnight"@,
        set_name_of(World::Hiko) == "xml_hiko"@,
        set_name_of(World::Ayame) == "xml_ayame"@,
        set_name_of(World::Hk) == "xml_hk"@,
        world_named("xml_adventure"@) == Some(World::Adventure),
        world_named("xml_deepnight"@) == Some(World::Deepnight),
        world_named("xml_hiko"@) == Some(World::Hiko),
        world_named("xml_ayame"@) == Some(World::Ayame),
        world_named("xml_hk"@) == Some(World::Hk),
{
    reveal_strlit("xml_adventure");
    reveal_strlit("xml_deepnight");
    reveal_strlit("xml_hiko");
    reveal_strlit("xml_ayame");
    reveal_strlit("xml_hk");
    let adventure = "xml_adventure"@;
    let deepnight = "xml_deepnight"@;
    let hiko = "xml_hiko"@;
    let ayame = "xml_ayame"@;
    let hk = "xml_hk"@;
    assert(deepnight[4] != adventure[4]);
    assert(hiko.len() != adventure.len() && hiko.len() != deepnight.len());
    assert(ayame.len() != adventure.len() && ayame.len() != deepnight.len() && ayame.len()
        != hiko.len());
    assert(hk.len() != adventure.len() && hk.len() != deepnight.len() && hk.len() != hiko.len()
        && hk.len() != ayame.len());
}

/// A move forward inside one world counts the levels crossed: the level
/// reached is the level left plus the count, and every move to a higher
/// level of the same world is such a move.
pub proof fn a_forward_crossing_counts_the_levels_crossed(route: RouteView, level: Level)
    requires
        route.wf(),
        level_in_range(level),
    ensures
        route.entered(level).1 matches Some(Crossing::Forward(n)) ==> (route.here matches Some(h)
            && h.world == level.world && h.id + n == level.id),
        forall|h: Level|
            route.here == Some(h) && h.world == level.world && h.id < level.id ==> #[trigger] route.entered(
                level,
            ).1 == Some(Crossing::Forward((level.id - h.id) as i64)),
{
}

} // verus!
