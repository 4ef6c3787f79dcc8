//! Map generation: a chain of builders that fills a board with rooms and
//! corridors and picks the cell on which the human's entity starts.

use vstd::prelude::*;
use crate::board::components::Tile;
use crate::board::{Board, BoardView};
use crate::config;
use crate::point::Point;
use crate::random::{PRng, PRngBuilder};
use crate::rect::Rect;
use self::bsp::BspMapBuilder;
use self::bsp_interior::BspInteriorBuilder;
use self::cellular_automata::CellularAutomataBuilder;
use self::room_corridors::{is_joined, RoomCorridors};
use self::room_start_pos::RoomBasedStartingPosition;
use self::simple_rooms::SimpleRoomBuilder;

pub mod bsp;
pub mod bsp_interior;
pub mod cellular_automata;
pub mod common;
pub mod room_corridors;
pub mod room_start_pos;
pub mod simple_rooms;

verus! {

/// The stages of the map generation.
#[derive(Clone, Copy, Debug, Hash, PartialEq, Eq, Structural)]
pub enum MapGenSet {
    Generation,
    Spawning,
}

/// Whether the cell `(x, y)` lies in one of the rooms.
pub open spec fn in_rooms(rooms: Seq<Rect>, x: int, y: int) -> bool {
    exists|k: int|
        0 <= k < rooms.len() && (#[trigger] rooms[k]).x1 <= x <= rooms[k].x2 && rooms[k].y1 <= y
            <= rooms[k].y2
}

/// Whether the cell `(x, y)` lies in the room.
pub open spec fn in_room(room: Rect, x: int, y: int) -> bool {
    room.x1 <= x <= room.x2 && room.y1 <= y <= room.y2
}

/// Whether every cell of every room is floor.
pub open spec fn rooms_are_floor(rooms: Seq<Rect>, board: BoardView) -> bool {
    forall|k: int, x: int, y: int|
        0 <= k < rooms.len() && #[trigger] in_room(rooms[k], x, y) ==> board.tile_xy(x, y)
            == Tile::Floor
}

/// Whether a board came from another by digging only: the size is the same,
/// and every cell is as it was or has become floor.
pub open spec fn only_dug(before: BoardView, after: BoardView) -> bool {
    &&& after.width == before.width
    &&& after.height == before.height
    &&& after.seen == before.seen
    &&& after.tiles.len() == before.tiles.len()
    &&& forall|x: int, y: int|
        0 <= x < before.width && 0 <= y < before.height ==> #[trigger] after.tile_xy(x, y)
            == before.tile_xy(x, y) || after.tile_xy(x, y) == Tile::Floor
}

/// Digging leaves rooms that are floor as they are.
pub proof fn lemma_dug_keeps_rooms(rooms: Seq<Rect>, before: BoardView, after: BoardView)
    requires
        rooms_on_board(rooms, before),
        rooms_are_floor(rooms, before),
        only_dug(before, after),
    ensures
        rooms_are_floor(rooms, after),
{
    assert forall|k: int, x: int, y: int|
        0 <= k < rooms.len() && #[trigger] in_room(rooms[k], x, y) implies after.tile_xy(x, y)
        == Tile::Floor by {
        assert(before.tile_xy(x, y) == Tile::Floor);
        assert(after.tile_xy(x, y) == before.tile_xy(x, y) || after.tile_xy(x, y) == Tile::Floor);
    }
}

/// Whether every room lies on the board, its first corner before or at its
/// second.
pub open spec fn rooms_on_board(rooms: Seq<Rect>, board: BoardView) -> bool {
    forall|k: int|
        0 <= k < rooms.len() ==> (#[trigger] rooms[k]).x1 <= rooms[k].x2 < board.width && rooms[k].y1
            <= rooms[k].y2 < board.height
}

/// On a well-formed board the sum of a cell's coordinates fits in 31 bits,
/// and so does each of them.
pub proof fn lemma_board_fits_i32(board: BoardView)
    requires
        board.wf(),
    ensures
        board.width + board.height <= 0x8000_0001,
        board.width <= i32::MAX,
        board.height <= i32::MAX,
{
    let w = board.width as int;
    let h = board.height as int;
    assert(w + h <= 0x8000_0001 && w <= i32::MAX && h <= i32::MAX) by (nonlinear_arith)
        requires
            w >= 2,
            h >= 2,
            w * h <= 0xffff_ffff,
    ;
}

/// What the builders work on: the board, and what they have found out
/// about it.
pub struct BuildData {
    pub board: Board,
    pub starting_position: Option<Point>,
    pub rects: Option<Vec<Rect>>,
    pub corridors: Option<Vec<Vec<usize>>>,
    pub history: Vec<Vec<Tile>>,
}

impl Default for BuildData {
    /// A 2-by-2 board of walls, and nothing known about it.
    fn default() -> (data: BuildData)
        ensures
            data.board@.filled(),
            data.board@.width == 2,
            data.board@.height == 2,
            data.starting_position is None,
            data.rects is None,
            data.corridors is None,
            data.history@.len() == 0,
    {
        BuildData {
            board: Board::new(0, 2, 2),
            starting_position: None,
            rects: None,
            corridors: None,
            history: Vec::new(),
        }
    }
}

impl BuildData {
    /// Records the tiles of the board as they are now, where recording is
    /// switched on.
    pub fn take_snapshot(&mut self)
        ensures
            final(self).board == old(self).board,
            final(self).starting_position == old(self).starting_position,
            final(self).rects == old(self).rects,
            final(self).corridors == old(self).corridors,
            final(self).history@.len() == old(self).history@.len() + (if config::SHOW_MAP_GEN {
                1int
            } else {
                0
            }),
            forall|k: int|
                0 <= k < old(self).history@.len() ==> final(self).history@[k] == old(self).history@[k],
            config::SHOW_MAP_GEN ==> final(self).history@.last()@ == old(self).board@.tiles,
    {
        if config::SHOW_MAP_GEN {
            let ss = self.board.get_tiles_cloned();
            self.history.push(ss);
        }
    }
}

/// A copy of a list of lists.
fn clone_nested<T: Copy>(lists: &Vec<Vec<T>>) -> (copy: Vec<Vec<T>>)
    ensures
        copy@.len() == lists@.len(),
        forall|k: int| 0 <= k < lists@.len() ==> (#[trigger] copy@[k])@ == lists@[k]@,
{
    let mut copy: Vec<Vec<T>> = Vec::new();
    let mut i: usize = 0;
    while i < lists.len()
        invariant
            i <= lists@.len(),
            copy@.len() == i,
            forall|k: int| 0 <= k < i ==> (#[trigger] copy@[k])@ == lists@[k]@,
        decreases lists.len() - i,
    {
        let mut inner: Vec<T> = Vec::new();
        let mut j: usize = 0;
        while j < lists[i].len()
            invariant
                i < lists@.len(),
                j <= lists@[i as int]@.len(),
                inner@ == lists@[i as int]@.subrange(0, j as int),
            decreases lists@[i as int]@.len() - j,
        {
            inner.push(lists[i][j]);
            proof {
                assert(inner@ =~= lists@[i as int]@.subrange(0, j + 1));
            }
            j = j + 1;
        }
        proof {
            assert(inner@ =~= lists@[i as int]@);
        }
        copy.push(inner);
        i = i + 1;
    }
    copy
}

/// A copy of a list of rectangles.
fn clone_rects(rects: &Vec<Rect>) -> (copy: Vec<Rect>)
    ensures
        copy@ == rects@,
{
    let mut copy: Vec<Rect> = Vec::new();
    let mut i: usize = 0;
    while i < rects.len()
        invariant
            i <= rects@.len(),
            copy@ == rects@.subrange(0, i as int),
        decreases rects.len() - i,
    {
        copy.push(rects[i]);
        proof {
            assert(copy@ =~= rects@.subrange(0, i + 1));
        }
        i = i + 1;
    }
    proof {
        assert(copy@ =~= rects@);
    }
    copy
}

impl Clone for BuildData {
    fn clone(&self) -> (copy: BuildData)
        ensures
            copy.board@ == self.board@,
            copy.starting_position == self.starting_position,
            copy.rects is Some == self.rects is Some,
            self.rects matches Some(rects) ==> copy.rects->0@ == rects@,
            copy.corridors is Some == self.corridors is Some,
            self.corridors matches Some(corridors) ==> copy.corridors->0@.len() == corridors@.len()
                && forall|k: int|
                0 <= k < corridors@.len() ==> (#[trigger] copy.corridors->0@[k])@ == corridors@[k]@,
            copy.history@.len() == self.history@.len(),
            forall|k: int|
                0 <= k < self.history@.len() ==> (#[trigger] copy.history@[k])@ == self.history@[k]@,
    {
        BuildData {
            board: self.board.clone(),
            starting_position: self.starting_position,
            rects: match &self.rects {
                Some(rects) => Some(clone_rects(rects)),
                None => None,
            },
            corridors: match &self.corridors {
                Some(corridors) => Some(clone_nested(corridors)),
                None => None,
            },
            history: clone_nested(&self.history),
        }
    }
}

/// Whether the rooms are recorded, there is at least one, and all lie on
/// the board.
pub open spec fn has_rooms(data: BuildData) -> bool {
    data.rects matches Some(rooms) && rooms@.len() >= 1 && rooms_on_board(rooms@, data.board@)
}

/// Whether the rooms are recorded, lie on the board, and are floor.
pub open spec fn has_floor_rooms(data: BuildData) -> bool {
    data.rects matches Some(rooms) && rooms_on_board(rooms@, data.board@) && rooms_are_floor(
        rooms@,
        data.board@,
    )
}

/// The builder that a chain starts with.
pub enum InitBuilder {
    SimpleRooms(Box<SimpleRoomBuilder>),
    Bsp(Box<BspMapBuilder>),
    BspInterior(Box<BspInteriorBuilder>),
    CellularAutomata(Box<CellularAutomataBuilder>),
}

/// A builder that works on what the builders before it have left.
pub enum MetaBuilder {
    RoomCorridors(Box<RoomCorridors>),
    RoomBasedStartingPosition(Box<RoomBasedStartingPosition>),
    CellularAutomata(Box<CellularAutomataBuilder>),
}

impl InitBuilder {
    /// Whether the builder can work on a board of this size.
    pub open spec fn spec_fits(self, width: nat, height: nat) -> bool {
        match self {
            InitBuilder::SimpleRooms(_) => SimpleRoomBuilder::spec_fits(width, height),
            InitBuilder::Bsp(_) => BspMapBuilder::spec_fits(width, height),
            InitBuilder::BspInterior(_) => BspInteriorBuilder::spec_fits(width, height),
            InitBuilder::CellularAutomata(_) => true,
        }
    }

    /// Whether the builder is sure to leave at least one room.
    pub open spec fn spec_gives_rooms(self) -> bool {
        self is SimpleRooms || self is BspInterior
    }

    pub fn build(&mut self, rng: &mut PRng, build_data: &mut BuildData)
        requires
            old(build_data).board@.filled(),
            old(self).spec_fits(old(build_data).board@.width, old(build_data).board@.height),
        ensures
            final(build_data).board@.filled(),
            final(build_data).board@.width == old(build_data).board@.width,
            final(build_data).board@.height == old(build_data).board@.height,
            final(build_data).starting_position == old(build_data).starting_position,
            final(build_data).corridors == old(build_data).corridors,
            old(self).spec_gives_rooms() ==> has_rooms(*final(build_data)),
            !(*old(self) is CellularAutomata) ==> has_floor_rooms(*final(build_data)),
            final(self).spec_gives_rooms() == old(self).spec_gives_rooms(),
    {
        match self {
            InitBuilder::SimpleRooms(builder) => builder.build(rng, build_data),
            InitBuilder::Bsp(builder) => builder.build(rng, build_data),
            InitBuilder::BspInterior(builder) => builder.build(rng, build_data),
            InitBuilder::CellularAutomata(builder) => builder.build(rng, build_data),
        }
    }
}

impl MetaBuilder {
    /// Whether the builder works on rooms.
    pub open spec fn spec_needs_rooms(self) -> bool {
        self is RoomCorridors || self is RoomBasedStartingPosition
    }

    pub fn build(&mut self, rng: &mut PRng, build_data: &mut BuildData)
        requires
            old(build_data).board@.filled(),
            old(self).spec_needs_rooms() ==> has_rooms(*old(build_data)),
        ensures
            final(build_data).board@.filled(),
            final(build_data).board@.width == old(build_data).board@.width,
            final(build_data).board@.height == old(build_data).board@.height,
            final(build_data).rects == old(build_data).rects,
            *old(self) is RoomBasedStartingPosition ==> final(build_data).starting_position == Some(
                old(build_data).rects->0@[0].spec_center(),
            ),
            !(*old(self) is CellularAutomata) ==> only_dug(
                old(build_data).board@,
                final(build_data).board@,
            ),
            !(*old(self) is RoomBasedStartingPosition) ==> final(build_data).starting_position == old(
                build_data,
            ).starting_position,
            *old(self) is RoomBasedStartingPosition ==> final(build_data).board == old(
                build_data,
            ).board && final(build_data).history == old(build_data).history,
            *old(self) is RoomCorridors ==> exists|shapes: Seq<bool>|
                is_joined(*old(build_data), *final(build_data), shapes),
            !(*old(self) is RoomCorridors) ==> final(build_data).corridors == old(
                build_data,
            ).corridors,
            *final(self) is RoomCorridors == *old(self) is RoomCorridors,
            *final(self) is RoomBasedStartingPosition == *old(self) is RoomBasedStartingPosition,
            *final(self) is CellularAutomata == *old(self) is CellularAutomata,
    {
        match self {
            MetaBuilder::RoomCorridors(builder) => builder.build(rng, build_data),
            MetaBuilder::RoomBasedStartingPosition(builder) => builder.build(rng, build_data),
            MetaBuilder::CellularAutomata(builder) => builder.build_meta(rng, build_data),
        }
    }
}

/// A chain of builders and the data that they work on.
pub struct MapBuilder {
    pub seed: u64,
    pub depth: u32,
    pub starter: Option<InitBuilder>,
    pub chainers: Vec<MetaBuilder>,
    pub build_data: BuildData,
}

impl MapBuilder {
    /// A chain without builders, on a board of walls.
    pub fn new(depth: u32, seed: u64, width: u32, height: u32) -> (builder: MapBuilder)
        requires
            Board::spec_dims_fit(width, height),
        ensures
            builder.seed == seed,
            builder.depth == depth,
            builder.starter is None,
            builder.chainers@.len() == 0,
            builder.build_data.board@.filled(),
            builder.build_data.board@.width == width,
            builder.build_data.board@.height == height,
            builder.build_data.starting_position is None,
            builder.build_data.rects is None,
            builder.build_data.corridors is None,
    {
        MapBuilder {
            depth,
            seed,
            starter: None,
            chainers: Vec::new(),
            build_data: BuildData {
                board: Board::new(depth, width, height),
                starting_position: None,
                rects: None,
                corridors: None,
                history: Vec::new(),
            },
        }
    }

    /// Sets the builder that the chain starts with. There can be only one.
    pub fn with_starter(self, starter: InitBuilder) -> (builder: MapBuilder)
        requires
            self.starter is None,
        ensures
            builder.starter == Some(starter),
            builder.seed == self.seed,
            builder.depth == self.depth,
            builder.chainers == self.chainers,
            builder.build_data == self.build_data,
    {
        let mut builder = self;
        builder.starter = Some(starter);
        builder
    }

    /// Adds a builder to the end of the chain.
    pub fn with(self, metabuilder: MetaBuilder) -> (builder: MapBuilder)
        ensures
            builder.chainers@ == self.chainers@.push(metabuilder),
            builder.starter == self.starter,
            builder.seed == self.seed,
            builder.depth == self.depth,
            builder.build_data == self.build_data,
    {
        let mut builder = self;
        builder.chainers.push(metabuilder);
        builder
    }

    /// Whether the chain can run: it has a starter that fits the board,
    /// and where a later builder works on rooms, the starter is sure to
    /// leave some.
    pub open spec fn spec_can_build(self) -> bool {
        &&& self.build_data.board@.filled()
        &&& self.starter matches Some(starter) && starter.spec_fits(
            self.build_data.board@.width,
            self.build_data.board@.height,
        ) && forall|k: int|
            0 <= k < self.chainers@.len() && (#[trigger] self.chainers@[k]).spec_needs_rooms()
                ==> starter.spec_gives_rooms()
    }

    /// Runs the chain with a generator seeded from the depth and the seed,
    /// and gives a copy of the data as the builders left them.
    pub fn build(&mut self) -> (data: BuildData)
        requires
            old(self).spec_can_build(),
        ensures
            data.board@.filled(),
            data.board@.width == old(self).build_data.board@.width,
            data.board@.height == old(self).build_data.board@.height,
            old(self).starter->0.spec_gives_rooms() ==> has_rooms(data),
            (exists|k: int|
                0 <= k < old(self).chainers@.len() && (#[trigger] old(self).chainers@[k])
                    is RoomBasedStartingPosition) ==> data.starting_position == Some(
                data.rects->0@[0].spec_center(),
            ),
            !(old(self).starter->0 is CellularAutomata) && (forall|k: int|
                0 <= k < old(self).chainers@.len() ==> !((#[trigger] old(self).chainers@[k])
                    is CellularAutomata)) ==> has_floor_rooms(data),
            (exists|k: int|
                0 <= k < old(self).chainers@.len() && (#[trigger] old(self).chainers@[k])
                    is RoomCorridors) ==> data.corridors is Some,
    {
        let mut prng = PRngBuilder::new_seeded(config::MAP_GENERATION_SEED).write_u32(
            self.depth,
        ).write_u64(self.seed).build();
        let ghost gives = self.starter->0.spec_gives_rooms();
        let ghost digs = !(self.starter->0 is CellularAutomata);
        match &mut self.starter {
            None => {},
            Some(starter) => {
                starter.build(&mut prng, &mut self.build_data);
            },
        }
        let ghost chain = old(self).chainers@;
        let mut i: usize = 0;
        while i < self.chainers.len()
            invariant
                i <= self.chainers@.len(),
                self.chainers@.len() == chain.len(),
                forall|k: int|
                    0 <= k < chain.len() ==> ((#[trigger] self.chainers@[k]) is RoomCorridors
                        == chain[k] is RoomCorridors) && (self.chainers@[k]
                        is RoomBasedStartingPosition == chain[k] is RoomBasedStartingPosition)
                        && (self.chainers@[k] is CellularAutomata == chain[k] is CellularAutomata),
                forall|k: int|
                    0 <= k < chain.len() && (#[trigger] chain[k]).spec_needs_rooms() ==> gives,
                digs && (forall|k: int| 0 <= k < i ==> !((#[trigger] chain[k]) is CellularAutomata))
                    ==> has_floor_rooms(self.build_data),
                self.build_data.board@.filled(),
                self.build_data.board@.width == old(self).build_data.board@.width,
                self.build_data.board@.height == old(self).build_data.board@.height,
                gives ==> has_rooms(self.build_data),
                (exists|k: int| 0 <= k < i && (#[trigger] chain[k]) is RoomBasedStartingPosition)
                    ==> self.build_data.starting_position == Some(
                    self.build_data.rects->0@[0].spec_center(),
                ),
                (exists|k: int| 0 <= k < i && (#[trigger] chain[k]) is RoomCorridors)
                    ==> self.build_data.corridors is Some,
            decreases self.chainers.len() - i,
        {
            let ghost before = self.chainers@;
            let ghost data_before = self.build_data;
            assert(before[i as int].spec_needs_rooms() ==> chain[i as int].spec_needs_rooms());
            self.chainers[i].build(&mut prng, &mut self.build_data);
            proof {
                assert forall|k: int| 0 <= k < chain.len() implies ((#[trigger] self.chainers@[k])
                    is RoomCorridors == chain[k] is RoomCorridors) && (self.chainers@[k]
                    is RoomBasedStartingPosition == chain[k] is RoomBasedStartingPosition)
                    && (self.chainers@[k] is CellularAutomata == chain[k] is CellularAutomata) by {
                    if k != i {
                        assert(self.chainers@[k] == before[k]);
                    }
                }
                if digs && (forall|k: int|
                    0 <= k < i + 1 ==> !((#[trigger] chain[k]) is CellularAutomata)) {
                    assert(!(chain[i as int] is CellularAutomata));
                    assert forall|k: int| 0 <= k < i implies !((#[trigger] chain[k])
                        is CellularAutomata) by {}
                    lemma_dug_keeps_rooms(
                        data_before.rects->0@,
                        data_before.board@,
                        self.build_data.board@,
                    );
                }
            }
            i = i + 1;
        }
        self.build_data.clone()
    }
}

/// A map of the usual size for the given seed and depth: rooms placed at
/// random, joined by corridors, and a starting cell in the first room.
pub fn random_builder(seed: u64, depth: u32) -> (data: BuildData)
    ensures
        data.board@.filled(),
        data.board@.width == config::map::MAP_TILE_WIDTH,
        data.board@.height == config::map::MAP_TILE_HEIGHT,
        has_rooms(data),
        has_floor_rooms(data),
        data.starting_position == Some(data.rects->0@[0].spec_center()),
        data.corridors is Some,
{
    let mut builder = MapBuilder::new(
        depth,
        seed,
        config::map::MAP_TILE_WIDTH,
        config::map::MAP_TILE_HEIGHT,
    ).with_starter(InitBuilder::SimpleRooms(SimpleRoomBuilder::new())).with(
        MetaBuilder::RoomCorridors(RoomCorridors::new()),
    ).with(MetaBuilder::RoomBasedStartingPosition(RoomBasedStartingPosition::new()));
    proof {
        assert(builder.chainers@[0] is RoomCorridors);
        assert(builder.chainers@[1] is RoomBasedStartingPosition);
    }
    builder.build()
}

} // verus!
