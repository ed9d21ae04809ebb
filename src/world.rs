use vstd::prelude::*;

use crate::tile::is_default_tiles;
use crate::tile::lemma_default_ids;
use crate::tile::lemma_default_names;
use crate::tile::Tile;
use crate::tile::Grass;
use crate::tile::TileKind;
use crate::render::shown;
use crate::render::FrameBuffer;
use crate::render::Style;
use crate::Player;
use crate::tile::TileRegistry;

verus! {

/// Horizontal extent of a chunk along each axis, in world units.
pub const CHUNK_SIZE: i32 = 32;

/// The chunk coordinate that holds world coordinate `c` (floor division).
pub open spec fn chunk_of(c: int) -> int {
    c / 32
}

/// The position of world coordinate `c` inside its chunk (floor modulo).
pub open spec fn local_of(c: int) -> int {
    c % 32
}

/// Floor division of a world coordinate by the chunk size.
pub fn chunk_coord(c: i32) -> (r: i32)
    ensures
        r as int == chunk_of(c as int),
{
    if c >= 0 {
        c / CHUNK_SIZE
    } else {
        -((-(c + 1)) / CHUNK_SIZE) - 1
    }
}

/// Floor modulo of a world coordinate by the chunk size: always in `0..32`.
pub fn local_coord(c: i32) -> (r: i32)
    ensures
        r as int == local_of(c as int),
        0 <= r < CHUNK_SIZE,
{
    ((c % CHUNK_SIZE) + CHUNK_SIZE) % CHUNK_SIZE
}

/// Vertical extent of a chunk, in layers.
pub const MAX_HEIGHT: i32 = 256;

/// Number of cells in one horizontal layer of a chunk.
pub const LAYER_CELLS: usize = 1024;

/// Number of cells in a chunk.
pub const CHUNK_CELLS: usize = 262144;

/// Ids of the fixed tile set, in registration order.
pub const AIR_ID: usize = 0;
pub const DIRT_ID: usize = 1;
pub const STONE_ID: usize = 2;
pub const GRASS_ID: usize = 3;

/// Lowest and highest chunk coordinate whose world columns all fit in `i32`.
pub const MIN_CHUNK: i32 = -67108864;
pub const MAX_CHUNK: i32 = 67108863;

pub open spec fn valid_chunk(c: (int, int)) -> bool {
    MIN_CHUNK <= c.0 <= MAX_CHUNK && MIN_CHUNK <= c.1 <= MAX_CHUNK
}

/// The tile at layer `z` of a column whose surface is at height `h`: grass on
/// the surface, air above it, three layers of dirt below it, stone further down.
pub open spec fn layer_tile(z: int, h: int) -> usize {
    if z == h {
        GRASS_ID
    } else if z > h {
        AIR_ID
    } else if z > h - 4 {
        DIRT_ID
    } else {
        STONE_ID
    }
}

/// The surface height that `height` gives for world column `(x, y)` and `seed`.
pub open spec fn samples<H: Fn(i32, i32, u32) -> i32>(
    height: H,
    x: int,
    y: int,
    seed: u32,
    h: i32,
) -> bool {
    &&& i32::MIN <= x <= i32::MAX
    &&& i32::MIN <= y <= i32::MAX
    &&& height.ensures((x as i32, y as i32, seed), h)
}

proof fn lemma_cell_index(z: int, x: int, y: int)
    requires
        0 <= z < 256,
        0 <= x < 32,
        0 <= y < 32,
    ensures
        0 <= z * 1024 + x * 32 + y < 262144,
        (z * 1024 + x * 32 + y) / 1024 == z,
        (z * 1024 + x * 32 + y) % 1024 == x * 32 + y,
        0 <= x * 32 + y < 1024,
{
    assert(0 <= x * 32 + y < 1024) by (nonlinear_arith)
        requires
            0 <= x < 32,
            0 <= y < 32,
    ;
    assert(0 <= z * 1024 + x * 32 + y < 262144) by (nonlinear_arith)
        requires
            0 <= z < 256,
            0 <= x * 32 + y < 1024,
    ;
    vstd::arithmetic::div_mod::lemma_fundamental_div_mod_converse(
        z * 1024 + x * 32 + y,
        1024,
        z,
        x * 32 + y,
    );
}

/// A 32 x 32 x 256 block of tile ids, generated once from the surface heights
/// of its columns and never changed afterwards.
pub struct Chunk {
    x: i32,
    y: i32,
    tiles: Vec<usize>,
    air_id: usize,
    surface: Ghost<Seq<i32>>,
}

impl Chunk {
    pub closed spec fn wf(&self) -> bool {
        &&& self.tiles@.len() == CHUNK_CELLS
        &&& self.surface@.len() == LAYER_CELLS
        &&& self.air_id == AIR_ID
        &&& valid_chunk(self.coord())
        &&& forall|i: int|
            0 <= i < CHUNK_CELLS ==> #[trigger] self.tiles@[i] == layer_tile(
                i / 1024,
                self.surface@[i % 1024] as int,
            )
    }

    /// The chunk coordinate of this chunk.
    pub closed spec fn coord(&self) -> (int, int) {
        (self.x as int, self.y as int)
    }

    /// The surface height of local column `(x, y)`.
    pub closed spec fn surface(&self, x: int, y: int) -> i32 {
        self.surface@[x * 32 + y]
    }

    /// The id stored at local position `(x, y, z)`.
    pub closed spec fn tile(&self, x: int, y: int, z: int) -> usize {
        self.tiles@[z * 1024 + x * 32 + y]
    }

    /// The id that `get` returns at local position `(x, y, z)`: air outside the chunk.
    pub open spec fn tile_or_air(&self, x: int, y: int, z: int) -> usize {
        if 0 <= x < 32 && 0 <= y < 32 && 0 <= z < 256 {
            self.tile(x, y, z)
        } else {
            AIR_ID
        }
    }

    /// Every column of the chunk was sampled from `height` at its absolute world
    /// coordinates, and its layers follow `layer_tile`.
    pub open spec fn built_from<H: Fn(i32, i32, u32) -> i32>(&self, height: H, seed: u32) -> bool {
        &&& self.wf()
        &&& forall|x: int, y: int|
            0 <= x < 32 && 0 <= y < 32 ==> samples(
                height,
                32 * self.coord().0 + x,
                32 * self.coord().1 + y,
                seed,
                #[trigger] self.surface(x, y),
            )
        &&& forall|x: int, y: int, z: int|
            0 <= x < 32 && 0 <= y < 32 && 0 <= z < 256 ==> #[trigger] self.tile(x, y, z)
                == layer_tile(z, self.surface(x, y) as int)
    }

    pub proof fn lemma_tile(&self, x: int, y: int, z: int)
        requires
            self.wf(),
            0 <= x < 32,
            0 <= y < 32,
            0 <= z < 256,
        ensures
            self.tile(x, y, z) == layer_tile(z, self.surface(x, y) as int),
    {
        lemma_cell_index(z, x, y);
    }

    /// Builds chunk `(x, y)`: the surface of each column comes from `height`
    /// at the column's absolute world coordinates and `seed`.
    pub fn new<H: Fn(i32, i32, u32) -> i32>(
        coord: (i32, i32),
        seed: u32,
        registry: &TileRegistry,
        height: &H,
    ) -> (r: Chunk)
        requires
            is_default_tiles(registry@),
            valid_chunk((coord.0 as int, coord.1 as int)),
            forall|x: i32, y: i32, s: u32| height.requires((x, y, s)),
        ensures
            r.built_from(*height, seed),
            r.coord() == (coord.0 as int, coord.1 as int),
    {
        let (cx, cy) = coord;
        let air_name = "air".to_string();
        let dirt_name = "dirt".to_string();
        let stone_name = "stone".to_string();
        let grass_name = "grass".to_string();
        proof {
            lemma_default_names(registry@);
        }
        let air_id = registry.id_of(&air_name);
        let dirt = registry.id_of(&dirt_name);
        let stone = registry.id_of(&stone_name);
        let grass = registry.id_of(&grass_name);
        proof {
            lemma_default_ids(registry@, air_name@, air_id as int);
            lemma_default_ids(registry@, dirt_name@, dirt as int);
            lemma_default_ids(registry@, stone_name@, stone as int);
            lemma_default_ids(registry@, grass_name@, grass as int);
        }
        // Surface heights, one per column, at index 32 * i + j.
        let mut surface: Vec<i32> = Vec::with_capacity(LAYER_CELLS);
        let mut i: i32 = 0;
        while i < CHUNK_SIZE
            invariant
                0 <= i <= 32,
                surface@.len() == 32 * i,
                valid_chunk((cx as int, cy as int)),
                forall|x: i32, y: i32, s: u32| height.requires((x, y, s)),
                forall|k: int|
                    0 <= k < surface@.len() ==> samples(
                        *height,
                        32 * cx + k / 32,
                        32 * cy + k % 32,
                        seed,
                        #[trigger] surface@[k],
                    ),
            decreases 32 - i,
        {
            let mut j: i32 = 0;
            while j < CHUNK_SIZE
                invariant
                    0 <= i < 32,
                    0 <= j <= 32,
                    surface@.len() == 32 * i + j,
                    valid_chunk((cx as int, cy as int)),
                    forall|x: i32, y: i32, s: u32| height.requires((x, y, s)),
                    forall|k: int|
                        0 <= k < surface@.len() ==> samples(
                            *height,
                            32 * cx + k / 32,
                            32 * cy + k % 32,
                            seed,
                            #[trigger] surface@[k],
                        ),
                decreases 32 - j,
            {
                let h = height(i + CHUNK_SIZE * cx, j + CHUNK_SIZE * cy, seed);
                proof {
                    vstd::arithmetic::div_mod::lemma_fundamental_div_mod_converse(
                        32 * i + j,
                        32,
                        i as int,
                        j as int,
                    );
                }
                surface.push(h);
                j = j + 1;
            }
            i = i + 1;
        }
        let mut tiles: Vec<usize> = Vec::with_capacity(CHUNK_CELLS);
        let mut k: usize = 0;
        while k < CHUNK_CELLS
            invariant
                tiles@.len() == k,
                k <= CHUNK_CELLS,
                surface@.len() == LAYER_CELLS,
                air_id == AIR_ID,
                dirt == DIRT_ID,
                stone == STONE_ID,
                grass == GRASS_ID,
                forall|n: int|
                    0 <= n < k ==> #[trigger] tiles@[n] == layer_tile(
                        n / 1024,
                        surface@[n % 1024] as int,
                    ),
            decreases CHUNK_CELLS - k,
        {
            let z: i32 = (k / LAYER_CELLS) as i32;
            let h: i32 = surface[k % LAYER_CELLS];
            let tile = if z == h {
                grass
            } else if z > h {
                air_id
            } else if (z as i64) > (h as i64) - 4 {
                dirt
            } else {
                stone
            };
            tiles.push(tile);
            k = k + 1;
        }
        let r = Chunk { x: cx, y: cy, tiles, air_id, surface: Ghost(surface@) };
        assert forall|x: int, y: int|
            0 <= x < 32 && 0 <= y < 32 implies samples(
            *height,
            32 * r.coord().0 + x,
            32 * r.coord().1 + y,
            seed,
            #[trigger] r.surface(x, y),
        ) by {
            lemma_cell_index(0, x, y);
            vstd::arithmetic::div_mod::lemma_fundamental_div_mod_converse(x * 32 + y, 32, x, y);
        }
        assert forall|x: int, y: int, z: int|
            0 <= x < 32 && 0 <= y < 32 && 0 <= z < 256 implies #[trigger] r.tile(x, y, z)
            == layer_tile(z, r.surface(x, y) as int) by {
            r.lemma_tile(x, y, z);
        }
        r
    }

    /// The tile id at local position `(x, y, z)`; air when the position lies
    /// outside the chunk.
    pub fn get(&self, pos: (i32, i32, i32)) -> (r: usize)
        requires
            self.wf(),
        ensures
            r == self.tile_or_air(pos.0 as int, pos.1 as int, pos.2 as int),
    {
        let (x, y, z) = pos;
        if x < 0 || x >= CHUNK_SIZE {
            self.air_id
        } else if y < 0 || y >= CHUNK_SIZE {
            self.air_id
        } else if z < 0 || z >= MAX_HEIGHT {
            self.air_id
        } else {
            proof {
                lemma_cell_index(z as int, x as int, y as int);
            }
            self.tiles[(z * 1024 + x * 32 + y) as usize]
        }
    }

    pub fn coord_x(&self) -> (r: i32)
        ensures
            r as int == self.coord().0,
    {
        self.x
    }

    pub fn coord_y(&self) -> (r: i32)
        ensures
            r as int == self.coord().1,
    {
        self.y
    }
}

/// Chebyshev distance between two chunk coordinates.
pub open spec fn chebyshev(a: (int, int), b: (int, int)) -> int {
    let dx = if a.0 >= b.0 { a.0 - b.0 } else { b.0 - a.0 };
    let dy = if a.1 >= b.1 { a.1 - b.1 } else { b.1 - a.1 };
    if dx >= dy { dx } else { dy }
}

/// The chunk coordinates within Chebyshev distance `r` of `center`.
pub open spec fn window(center: (int, int), r: int) -> Set<(int, int)> {
    Set::new(|c: (int, int)| valid_chunk(c) && chebyshev(c, center) <= r)
}

pub open spec fn coords_unique(chunks: Seq<Chunk>) -> bool {
    forall|i: int, j: int|
        0 <= i < chunks.len() && 0 <= j < chunks.len() && i != j ==> (#[trigger] chunks[i]).coord()
            != (#[trigger] chunks[j]).coord()
}

pub open spec fn holds_coord(chunks: Seq<Chunk>, c: (int, int)) -> bool {
    exists|i: int| 0 <= i < chunks.len() && (#[trigger] chunks[i]).coord() == c
}

/// The chunk with coordinate `c` in `chunks`.
pub open spec fn chunk_with(chunks: Seq<Chunk>, c: (int, int)) -> Chunk {
    chunks[choose|i: int| 0 <= i < chunks.len() && (#[trigger] chunks[i]).coord() == c]
}

proof fn lemma_chunk_with(chunks: Seq<Chunk>, i: int)
    requires
        coords_unique(chunks),
        0 <= i < chunks.len(),
    ensures
        holds_coord(chunks, chunks[i].coord()),
        chunk_with(chunks, chunks[i].coord()) == chunks[i],
{
    assert(holds_coord(chunks, chunks[i].coord()));
}

/// The terrain around the player: the seed, the tile table, and the chunks
/// that are resident, each at most once.
pub struct World {
    seed: u32,
    player: Player,
    chunk_render_distance: u16,
    chunks: Vec<Chunk>,
    tiles: TileRegistry,
}

impl World {
    pub closed spec fn wf(&self) -> bool {
        &&& is_default_tiles(self.tiles@)
        &&& coords_unique(self.chunks@)
        &&& forall|i: int| 0 <= i < self.chunks@.len() ==> (#[trigger] self.chunks@[i]).wf()
        &&& 0 <= self.player.z < MAX_HEIGHT
    }

    pub closed spec fn spec_seed(&self) -> u32 {
        self.seed
    }

    pub closed spec fn spec_player(&self) -> Player {
        self.player
    }

    /// The Chebyshev radius, in chunks, of the square kept around the player:
    /// half the render distance.
    pub closed spec fn radius(&self) -> int {
        self.chunk_render_distance as int / 2
    }

    pub closed spec fn registry(&self) -> Seq<TileKind> {
        self.tiles@
    }

    /// The coordinates of the resident chunks.
    pub closed spec fn resident(&self) -> Set<(int, int)> {
        Set::new(|c: (int, int)| holds_coord(self.chunks@, c))
    }

    /// The resident chunk with coordinate `c`.
    pub closed spec fn chunk_at(&self, c: (int, int)) -> Chunk {
        chunk_with(self.chunks@, c)
    }

    /// Every resident chunk was built from `height` and the world's seed.
    pub open spec fn built_from<H: Fn(i32, i32, u32) -> i32>(&self, height: H) -> bool {
        forall|c: (int, int)| #[trigger]
            self.resident().contains(c) ==> self.chunk_at(c).built_from(height, self.spec_seed())
    }

    /// The tile id at world position `(x, y, z)`: air where no chunk is resident.
    pub open spec fn tile_at(&self, x: int, y: int, z: int) -> usize {
        let c = (chunk_of(x), chunk_of(y));
        if self.resident().contains(c) {
            self.chunk_at(c).tile_or_air(local_of(x), local_of(y), z)
        } else {
            AIR_ID
        }
    }

    /// The effect of `load_chunk(c)`: nothing when `c` is resident already;
    /// otherwise `c` becomes resident, built from `height`, and nothing else changes.
    pub open spec fn loads<H: Fn(i32, i32, u32) -> i32>(
        before: World,
        after: World,
        c: (int, int),
        height: H,
    ) -> bool {
        &&& after.wf()
        &&& before.resident().contains(c) ==> after == before
        &&& !before.resident().contains(c) ==> {
            &&& after.resident() == before.resident().insert(c)
            &&& after.chunk_at(c).built_from(height, before.spec_seed())
            &&& forall|d: (int, int)| #[trigger]
                before.resident().contains(d) ==> after.chunk_at(d) == before.chunk_at(d)
            &&& after.spec_seed() == before.spec_seed()
            &&& after.spec_player() == before.spec_player()
            &&& after.radius() == before.radius()
            &&& after.registry() == before.registry()
        }
    }

    proof fn lemma_resident_len(&self)
        requires
            self.wf(),
        ensures
            self.resident().finite(),
            self.resident().len() == self.chunks@.len(),
    {
        let coords = self.chunks@.map_values(|ch: Chunk| ch.coord());
        assert(coords.no_duplicates()) by {
            assert forall|i: int, j: int|
                0 <= i < coords.len() && 0 <= j < coords.len() && i != j implies coords[i]
                != coords[j] by {
                assert(self.chunks@[i].coord() != self.chunks@[j].coord());
            }
        }
        coords.unique_seq_to_set();
        assert(coords.to_set() =~= self.resident()) by {
            assert forall|c: (int, int)| #[trigger] self.resident().contains(c) implies coords.contains(
                c,
            ) by {
                let i = choose|i: int|
                    0 <= i < self.chunks@.len() && (#[trigger] self.chunks@[i]).coord() == c;
                assert(coords[i] == c);
            }
            assert forall|c: (int, int)| #[trigger] coords.contains(c) implies self.resident().contains(
                c,
            ) by {
                let i = choose|i: int| 0 <= i < coords.len() && coords[i] == c;
                assert(self.chunks@[i].coord() == c);
            }
        }
    }

    fn find_chunk(&self, c: (i32, i32)) -> (r: Option<usize>)
        requires
            self.wf(),
        ensures
            match r {
                Some(i) => i < self.chunks@.len() && self.chunks@[i as int].coord() == (
                    c.0 as int,
                    c.1 as int,
                ) && self.resident().contains((c.0 as int, c.1 as int)) && self.chunk_at(
                    (c.0 as int, c.1 as int),
                ) == self.chunks@[i as int],
                None => !self.resident().contains((c.0 as int, c.1 as int)),
            },
    {
        let mut i: usize = 0;
        while i < self.chunks.len()
            invariant
                self.wf(),
                i <= self.chunks@.len(),
                forall|j: int|
                    0 <= j < i ==> (#[trigger] self.chunks@[j]).coord() != (c.0 as int, c.1 as int),
            decreases self.chunks@.len() - i,
        {
            if self.chunks[i].x == c.0 && self.chunks[i].y == c.1 {
                proof {
                    lemma_chunk_with(self.chunks@, i as int);
                }
                return Some(i);
            }
            i = i + 1;
        }
        None
    }

    /// Makes chunk `c` resident, building it from `height` unless it is
    /// resident already.
    pub fn load_chunk<H: Fn(i32, i32, u32) -> i32>(&mut self, c: (i32, i32), height: &H)
        requires
            old(self).wf(),
            valid_chunk((c.0 as int, c.1 as int)),
            forall|x: i32, y: i32, s: u32| height.requires((x, y, s)),
        ensures
            World::loads(*old(self), *final(self), (c.0 as int, c.1 as int), *height),
    {
        if self.find_chunk(c).is_some() {
            return;
        }
        let chunk = Chunk::new(c, self.seed, &self.tiles, height);
        let ghost before = self.chunks@;
        self.chunks.push(chunk);
        proof {
            let cc = (c.0 as int, c.1 as int);
            let n = before.len() as int;
            assert(self.chunks@.subrange(0, n) =~= before);
            assert(coords_unique(self.chunks@)) by {
                assert forall|i: int, j: int|
                    0 <= i < self.chunks@.len() && 0 <= j < self.chunks@.len() && i != j implies (
                    #[trigger] self.chunks@[i]).coord() != (#[trigger] self.chunks@[j]).coord() by {
                    if i < n && j < n {
                        assert(before[i] == self.chunks@[i]);
                        assert(before[j] == self.chunks@[j]);
                    } else if i == n {
                        assert(before[j] == self.chunks@[j]);
                        assert(!holds_coord(before, cc));
                    } else {
                        assert(before[i] == self.chunks@[i]);
                        assert(!holds_coord(before, cc));
                    }
                }
            }
            lemma_chunk_with(self.chunks@, n);
            assert(self.resident() =~= old(self).resident().insert(cc)) by {
                assert forall|d: (int, int)| #[trigger] self.resident().contains(d) == old(
                    self,
                ).resident().insert(cc).contains(d) by {
                    if holds_coord(self.chunks@, d) && d != cc {
                        let i = choose|i: int|
                            0 <= i < self.chunks@.len() && (#[trigger] self.chunks@[i]).coord() == d;
                        assert(before[i] == self.chunks@[i]);
                    }
                    if holds_coord(before, d) {
                        let i = choose|i: int| 0 <= i < before.len() && (#[trigger] before[i]).coord() == d;
                        assert(before[i] == self.chunks@[i]);
                    }
                }
            }
            assert forall|d: (int, int)| #[trigger]
                old(self).resident().contains(d) implies self.chunk_at(d) == old(self).chunk_at(d) by {
                let i = choose|i: int| 0 <= i < before.len() && (#[trigger] before[i]).coord() == d;
                assert(before[i] == self.chunks@[i]);
                lemma_chunk_with(before, i);
                lemma_chunk_with(self.chunks@, i);
            }
        }
    }

    /// The tile id at world position `pos`: the world column is split into a
    /// chunk coordinate (floor division by 32) and a position in that chunk
    /// (floor modulo 32). Air where the chunk is not resident.
    pub fn get(&self, pos: (i32, i32, i32)) -> (r: usize)
        requires
            self.wf(),
        ensures
            r == self.tile_at(pos.0 as int, pos.1 as int, pos.2 as int),
    {
        let (x, y, z) = pos;
        let cx = chunk_coord(x);
        let cy = chunk_coord(y);
        match self.find_chunk((cx, cy)) {
            None => AIR_ID,
            Some(i) => self.chunks[i].get((local_coord(x), local_coord(y), z)),
        }
    }

    /// The tile with id `id`.
    pub fn tile(&self, id: usize) -> (r: &TileKind)
        requires
            self.wf(),
            id < 4,
        ensures
            *r == self.registry()[id as int],
    {
        self.tiles.tile_at(id)
    }

    pub fn player(&self) -> (r: &Player)
        ensures
            *r == self.spec_player(),
    {
        &self.player
    }

    pub fn seed(&self) -> (r: u32)
        ensures
            r == self.spec_seed(),
    {
        self.seed
    }

    /// The number of resident chunks.
    pub fn chunk_count(&self) -> (r: usize)
        requires
            self.wf(),
        ensures
            r == self.resident().len(),
    {
        proof {
            self.lemma_resident_len();
        }
        self.chunks.len()
    }

    /// Whether chunk `c` is resident.
    pub fn is_resident(&self, c: (i32, i32)) -> (r: bool)
        requires
            self.wf(),
        ensures
            r == self.resident().contains((c.0 as int, c.1 as int)),
    {
        self.find_chunk(c).is_some()
    }

    /// Loads every chunk of the square of radius `radius()` around `center`.
    fn load_window<H: Fn(i32, i32, u32) -> i32>(&mut self, center: (i32, i32), height: &H)
        requires
            old(self).wf(),
            valid_chunk((center.0 as int, center.1 as int)),
            forall|x: i32, y: i32, s: u32| height.requires((x, y, s)),
        ensures
            final(self).wf(),
            final(self).spec_seed() == old(self).spec_seed(),
            final(self).spec_player() == old(self).spec_player(),
            final(self).radius() == old(self).radius(),
            final(self).registry() == old(self).registry(),
            final(self).resident() == old(self).resident().union(
                window((center.0 as int, center.1 as int), old(self).radius()),
            ),
            forall|c: (int, int)| #[trigger]
                final(self).resident().contains(c) ==> if old(self).resident().contains(c) {
                    final(self).chunk_at(c) == old(self).chunk_at(c)
                } else {
                    final(self).chunk_at(c).built_from(*height, old(self).spec_seed())
                },
    {
        let half: i32 = (self.chunk_render_distance / 2) as i32;
        let (cx, cy) = center;
        let ghost cc = (cx as int, cy as int);
        let ghost base = self.resident();
        let mut i: i32 = -half;
        while i <= half
            invariant
                self.wf(),
                half == old(self).radius(),
                0 <= half <= 32767,
                -half <= i <= half + 1,
                valid_chunk(cc),
                cc == (cx as int, cy as int),
                base == old(self).resident(),
                forall|x: i32, y: i32, s: u32| height.requires((x, y, s)),
                self.spec_seed() == old(self).spec_seed(),
                self.spec_player() == old(self).spec_player(),
                self.radius() == old(self).radius(),
                self.registry() == old(self).registry(),
                self.resident() == base.union(loaded_part(cc, half as int, i as int, half as int + 1)),
                forall|c: (int, int)| #[trigger]
                    self.resident().contains(c) ==> if base.contains(c) {
                        self.chunk_at(c) == old(self).chunk_at(c)
                    } else {
                        self.chunk_at(c).built_from(*height, old(self).spec_seed())
                    },
            decreases half + 1 - i,
        {
            assert(loaded_part(cc, half as int, i as int, half as int + 1) =~= loaded_part(
                cc,
                half as int,
                i as int + 1,
                -half as int,
            ));
            let mut j: i32 = -half;
            while j <= half
                invariant
                    self.wf(),
                    half == old(self).radius(),
                    0 <= half <= 32767,
                    -half <= i <= half,
                    -half <= j <= half + 1,
                    valid_chunk(cc),
                    cc == (cx as int, cy as int),
                    base == old(self).resident(),
                    forall|x: i32, y: i32, s: u32| height.requires((x, y, s)),
                    self.spec_seed() == old(self).spec_seed(),
                    self.spec_player() == old(self).spec_player(),
                    self.radius() == old(self).radius(),
                    self.registry() == old(self).registry(),
                    self.resident() == base.union(loaded_part(cc, half as int, i as int + 1, j as int)),
                    forall|c: (int, int)| #[trigger]
                        self.resident().contains(c) ==> if base.contains(c) {
                            self.chunk_at(c) == old(self).chunk_at(c)
                        } else {
                            self.chunk_at(c).built_from(*height, old(self).spec_seed())
                        },
                decreases half + 1 - j,
            {
                let ghost before = *self;
                let ghost d = (cx as int + i as int, cy as int + j as int);
                let x = cx as i64 + i as i64;
                let y = cy as i64 + j as i64;
                if MIN_CHUNK as i64 <= x && x <= MAX_CHUNK as i64 && MIN_CHUNK as i64 <= y && y
                    <= MAX_CHUNK as i64 {
                    self.load_chunk((x as i32, y as i32), height);
                    proof {
                        assert(loaded_part(cc, half as int, i as int + 1, j as int + 1) =~= loaded_part(
                            cc,
                            half as int,
                            i as int + 1,
                            j as int,
                        ).insert(d));
                        assert(self.resident() =~= base.union(
                            loaded_part(cc, half as int, i as int + 1, j as int + 1),
                        ));
                        assert forall|c: (int, int)| #[trigger]
                            self.resident().contains(c) implies if base.contains(c) {
                            self.chunk_at(c) == old(self).chunk_at(c)
                        } else {
                            self.chunk_at(c).built_from(*height, old(self).spec_seed())
                        } by {
                            if before.resident().contains(c) {
                                assert(before.resident().contains(c));
                            }
                        }
                    }
                } else {
                    assert(loaded_part(cc, half as int, i as int + 1, j as int + 1) =~= loaded_part(
                        cc,
                        half as int,
                        i as int + 1,
                        j as int,
                    ));
                }
                j = j + 1;
            }
            i = i + 1;
        }
        assert(loaded_part(cc, half as int, half as int + 1, half as int + 1) =~= window(
            cc,
            half as int,
        ));
    }

    /// Drops every resident chunk farther than `radius()` from `center`.
    fn evict_outside(&mut self, center: (i32, i32))
        requires
            old(self).wf(),
            valid_chunk((center.0 as int, center.1 as int)),
        ensures
            final(self).wf(),
            final(self).spec_seed() == old(self).spec_seed(),
            final(self).spec_player() == old(self).spec_player(),
            final(self).radius() == old(self).radius(),
            final(self).registry() == old(self).registry(),
            final(self).resident() == old(self).resident().intersect(
                window((center.0 as int, center.1 as int), old(self).radius()),
            ),
            forall|c: (int, int)| #[trigger]
                final(self).resident().contains(c) ==> final(self).chunk_at(c) == old(self).chunk_at(c),
    {
        let ghost cc = (center.0 as int, center.1 as int);
        let ghost r = self.radius();
        let half: i64 = (self.chunk_render_distance / 2) as i64;
        let mut rest: Vec<Chunk> = Vec::new();
        std::mem::swap(&mut rest, &mut self.chunks);
        let ghost orig = rest@;
        let mut kept: Vec<Chunk> = Vec::new();
        let ghost mut src: Seq<int> = Seq::empty();
        while rest.len() > 0
            invariant
                coords_unique(orig),
                forall|i: int| 0 <= i < orig.len() ==> (#[trigger] orig[i]).wf(),
                orig == old(self).chunks@,
                half == r,
                valid_chunk(cc),
                cc == (center.0 as int, center.1 as int),
                rest@.len() <= orig.len(),
                rest@ == orig.subrange(0, rest@.len() as int),
                kept@.len() == src.len(),
                forall|k: int|
                    0 <= k < kept@.len() ==> rest@.len() <= #[trigger] src[k] < orig.len()
                        && kept@[k] == orig[src[k]] && window(cc, r).contains(kept@[k].coord()),
                forall|a: int, b: int| 0 <= a < b < kept@.len() ==> src[a] > src[b],
                forall|i: int|
                    rest@.len() <= i < orig.len() && #[trigger] window(cc, r).contains(
                        orig[i].coord(),
                    ) ==> exists|k: int| 0 <= k < src.len() && src[k] == i,
            decreases rest@.len(),
        {
            let ghost old_src = src;
            let ch = rest.pop().unwrap();
            let ghost at = rest@.len() as int;
            assert(ch == orig[at]);
            let dx: i64 = ch.x as i64 - center.0 as i64;
            let dy: i64 = ch.y as i64 - center.1 as i64;
            let adx: i64 = if dx >= 0 { dx } else { -dx };
            let ady: i64 = if dy >= 0 { dy } else { -dy };
            let dist: i64 = if adx >= ady { adx } else { ady };
            assert(window(cc, r).contains(ch.coord()) == (dist <= half));
            if dist <= half {
                kept.push(ch);
                proof {
                    src = src.push(at);
                    assert(src[src.len() - 1] == at);
                }
            }
            proof {
                assert forall|i: int|
                    rest@.len() <= i < orig.len() && #[trigger] window(cc, r).contains(
                        orig[i].coord(),
                    ) implies exists|k: int| 0 <= k < src.len() && src[k] == i by {
                    if i == at {
                        assert(src[src.len() - 1] == at);
                    } else {
                        let k = choose|k: int| 0 <= k < old_src.len() && old_src[k] == i;
                        assert(src[k] == old_src[k]);
                    }
                }
            }
        }
        proof {
            assert(coords_unique(kept@)) by {
                assert forall|a: int, b: int|
                    0 <= a < kept@.len() && 0 <= b < kept@.len() && a != b implies (
                    #[trigger] kept@[a]).coord() != (#[trigger] kept@[b]).coord() by {
                    assert(src[a] != src[b]);
                    assert(orig[src[a]] == kept@[a]);
                    assert(orig[src[b]] == kept@[b]);
                }
            }
        }
        self.chunks = kept;
        proof {
            assert forall|k: int| 0 <= k < self.chunks@.len() implies (#[trigger] self.chunks@[k]).wf() by {
                assert(orig[src[k]] == self.chunks@[k]);
            }
            assert(self.resident() =~= old(self).resident().intersect(window(cc, r))) by {
                assert forall|c: (int, int)| #[trigger] self.resident().contains(c) == old(
                    self,
                ).resident().intersect(window(cc, r)).contains(c) by {
                    if self.resident().contains(c) {
                        let k = choose|k: int|
                            0 <= k < self.chunks@.len() && (#[trigger] self.chunks@[k]).coord() == c;
                        assert(orig[src[k]] == self.chunks@[k]);
                        assert(holds_coord(orig, c));
                    }
                    if old(self).resident().contains(c) && window(cc, r).contains(c) {
                        let i = choose|i: int| 0 <= i < orig.len() && (#[trigger] orig[i]).coord() == c;
                        let k = choose|k: int| 0 <= k < src.len() && src[k] == i;
                        assert(self.chunks@[k] == orig[i]);
                        assert(holds_coord(self.chunks@, c));
                    }
                }
            }
            assert forall|c: (int, int)| #[trigger]
                self.resident().contains(c) implies self.chunk_at(c) == old(self).chunk_at(c) by {
                let k = choose|k: int|
                    0 <= k < self.chunks@.len() && (#[trigger] self.chunks@[k]).coord() == c;
                lemma_chunk_with(self.chunks@, k);
                lemma_chunk_with(orig, src[k]);
            }
        }
    }

    /// Moves the player by `(x, y, z)`, keeping `z` within `0..256`, then
    /// restores residency around the player's new chunk: chunks farther than
    /// `radius()` are dropped, and every chunk within it is loaded from `height`.
    pub fn move_player<H: Fn(i32, i32, u32) -> i32>(&mut self, x: i32, y: i32, z: i32, height: &H)
        requires
            old(self).wf(),
            i32::MIN <= old(self).spec_player().x + x <= i32::MAX,
            i32::MIN <= old(self).spec_player().y + y <= i32::MAX,
            forall|x: i32, y: i32, s: u32| height.requires((x, y, s)),
        ensures
            final(self).wf(),
            final(self).spec_player() == Player::new_spec(
                (old(self).spec_player().x + x) as i32,
                (old(self).spec_player().y + y) as i32,
                clamp_layer(old(self).spec_player().z + z) as i32,
                old(self).spec_player().sprite,
            ),
            final(self).spec_seed() == old(self).spec_seed(),
            final(self).radius() == old(self).radius(),
            final(self).registry() == old(self).registry(),
            final(self).resident() == window(
                (
                    chunk_of(final(self).spec_player().x as int),
                    chunk_of(final(self).spec_player().y as int),
                ),
                old(self).radius(),
            ),
            forall|c: (int, int)| #[trigger]
                final(self).resident().contains(c) ==> if old(self).resident().contains(c) {
                    final(self).chunk_at(c) == old(self).chunk_at(c)
                } else {
                    final(self).chunk_at(c).built_from(*height, old(self).spec_seed())
                },
    {
        self.player.x = self.player.x + x;
        self.player.y = self.player.y + y;
        let nz: i64 = self.player.z as i64 + z as i64;
        self.player.z = if nz < 0 {
            0
        } else if nz > (MAX_HEIGHT - 1) as i64 {
            MAX_HEIGHT - 1
        } else {
            nz as i32
        };
        let center = (chunk_coord(self.player.x), chunk_coord(self.player.y));
        let ghost moved = *self;
        self.evict_outside(center);
        let ghost evicted = *self;
        self.load_window(center, height);
        proof {
            let cc = (center.0 as int, center.1 as int);
            let w = window(cc, self.radius());
            assert(self.resident() =~= w);
            assert forall|c: (int, int)| #[trigger] self.resident().contains(c) implies if old(
                self,
            ).resident().contains(c) {
                self.chunk_at(c) == old(self).chunk_at(c)
            } else {
                self.chunk_at(c).built_from(*height, old(self).spec_seed())
            } by {
                if evicted.resident().contains(c) {
                    assert(moved.resident().contains(c));
                }
            }
        }
    }

    /// Every tile id that `tile_at` gives names a registered tile.
    pub proof fn lemma_tile_at_registered(&self, x: int, y: int, z: int)
        requires
            self.wf(),
        ensures
            self.tile_at(x, y, z) < 4,
            self.tile_at(x, y, z) < self.registry().len(),
    {
        let c = (chunk_of(x), chunk_of(y));
        if self.resident().contains(c) {
            let i = choose|i: int| 0 <= i < self.chunks@.len() && (#[trigger] self.chunks@[i]).coord() == c;
            lemma_chunk_with(self.chunks@, i);
            let ch = self.chunk_at(c);
            let (lx, ly) = (local_of(x), local_of(y));
            if 0 <= lx < 32 && 0 <= ly < 32 && 0 <= z < 256 {
                ch.lemma_tile(lx, ly, z);
            }
        }
    }

    /// The world column shown at 1-based screen cell `(i, j)` of a screen of
    /// `size`: the player stands at the centre.
    pub open spec fn screen_to_world(&self, size: (usize, usize), i: int, j: int) -> (int, int) {
        (
            self.spec_player().x + i - size.0 as int / 2,
            self.spec_player().y + j - size.1 as int / 2,
        )
    }

    /// The tile seen from above at world column `(x, y)`: the tile at the
    /// player's layer, or, where that one is transparent, the tile one layer
    /// below, seen as a surface.
    pub open spec fn visible(&self, x: int, y: int) -> (char, Seq<Style>) {
        let z = self.spec_player().z as int;
        let t = self.registry()[self.tile_at(x, y, z) as int];
        if t.is_transparent() {
            let below = self.registry()[self.tile_at(x, y, z - 1) as int];
            (below.top_glyph(), below.top_styles())
        } else {
            (t.glyph(), t.glyph_styles())
        }
    }

    /// Every world column on a screen of `size` is representable.
    pub open spec fn screen_fits(&self, size: (usize, usize)) -> bool {
        &&& size.0 <= i32::MAX
        &&& size.1 <= i32::MAX
        &&& i32::MIN <= self.spec_player().x + 1 - size.0 as int / 2
        &&& self.spec_player().x + size.0 - size.0 as int / 2 <= i32::MAX
        &&& i32::MIN <= self.spec_player().y + 1 - size.1 as int / 2
        &&& self.spec_player().y + size.1 - size.1 as int / 2 <= i32::MAX
    }

    /// `buf` is `orig` with the cells of a screen of `size` drawn in column
    /// order up to, and not including, 1-based cell `(i, j)`.
    pub open spec fn drawn_upto(
        &self,
        buf: FrameBuffer,
        orig: FrameBuffer,
        size: (usize, usize),
        i: int,
        j: int,
    ) -> bool {
        &&& buf.wf()
        &&& buf.spec_width() == orig.spec_width()
        &&& buf.spec_height() == orig.spec_height()
        &&& forall|x: int, y: int|
            0 <= x < orig.spec_width() && 0 <= y < orig.spec_height() ==> if x < size.0 && y < size.1
                && (x + 1 < i || (x + 1 == i && y + 1 < j)) {
                let w = self.screen_to_world(size, x + 1, y + 1);
                &&& #[trigger] buf.glyph(x, y) == shown(self.visible(w.0, w.1).0)
                &&& buf.styles_at(x, y) == self.visible(w.0, w.1).1
            } else {
                &&& buf.glyph(x, y) == orig.glyph(x, y)
                &&& buf.styles_at(x, y) == orig.styles_at(x, y)
            }
    }

    /// Draws, for every 1-based cell `(i, j)` of a screen of `size`, the tile
    /// visible at the world column that the cell shows. Cells of the buffer
    /// outside that screen are left as they were.
    pub fn render(&self, size: (usize, usize), buffer: &mut FrameBuffer)
        requires
            self.wf(),
            old(buffer).wf(),
            self.screen_fits(size),
        ensures
            self.drawn_upto(*final(buffer), *old(buffer), size, size.0 + 1, 1),
    {
        let (width, height) = size;
        let screen_x: i32 = (width / 2) as i32;
        let screen_y: i32 = (height / 2) as i32;
        let pz = self.player.z;
        let mut i: usize = 1;
        while i <= width
            invariant
                self.wf(),
                self.screen_fits(size),
                size == (width, height),
                screen_x == width / 2,
                screen_y == height / 2,
                pz == self.spec_player().z,
                1 <= i <= width + 1,
                self.drawn_upto(*buffer, *old(buffer), size, i as int, 1),
            decreases width + 1 - i,
        {
            let mut j: usize = 1;
            while j <= height
                invariant
                    self.wf(),
                    self.screen_fits(size),
                    size == (width, height),
                    screen_x == width / 2,
                    screen_y == height / 2,
                    pz == self.spec_player().z,
                    1 <= i <= width,
                    1 <= j <= height + 1,
                    self.drawn_upto(*buffer, *old(buffer), size, i as int, j as int),
                decreases height + 1 - j,
            {
                let ghost before = *buffer;
                let wx = self.player.x + (i as i32 - screen_x);
                let wy = self.player.y + (j as i32 - screen_y);
                let id = self.get((wx, wy, pz));
                proof {
                    self.lemma_tile_at_registered(wx as int, wy as int, pz as int);
                    self.lemma_tile_at_registered(wx as int, wy as int, pz - 1);
                }
                let tile = self.tiles.tile_at(id);
                let ghost vis = self.visible(wx as int, wy as int);
                if tile.transparent() {
                    let below = self.get((wx, wy, pz - 1));
                    self.tiles.tile_at(below).render_top((i, j), size, buffer);
                } else {
                    tile.render((i, j), size, buffer);
                }
                proof {
                    assert(buffer.is_drawn(&before, (i, j), vis.1, vis.0));
                    assert(self.screen_to_world(size, i as int, j as int) == (wx as int, wy as int));
                    assert forall|x: int, y: int|
                        0 <= x < old(buffer).spec_width() && 0 <= y < old(buffer).spec_height()
                            implies if x < size.0 && y < size.1 && (x + 1 < i || (x + 1 == i && y + 1
                        < j + 1)) {
                        let w = self.screen_to_world(size, x + 1, y + 1);
                        &&& #[trigger] buffer.glyph(x, y) == shown(self.visible(w.0, w.1).0)
                        &&& buffer.styles_at(x, y) == self.visible(w.0, w.1).1
                    } else {
                        &&& buffer.glyph(x, y) == old(buffer).glyph(x, y)
                        &&& buffer.styles_at(x, y) == old(buffer).styles_at(x, y)
                    } by {
                        // Instantiate the invariant and the drawing at this cell.
                        assert(before.glyph(x, y) == before.glyph(x, y));
                        assert(buffer.glyph(x, y) == buffer.glyph(x, y));
                        if x + 1 == i && y + 1 == j {
                            assert(buffer.glyph(x, y) == shown(vis.0));
                            assert(buffer.styles_at(x, y) == vis.1);
                        } else {
                            assert(buffer.glyph(x, y) == before.glyph(x, y));
                            assert(buffer.styles_at(x, y) == before.styles_at(x, y));
                        }
                    }
                    assert(buffer.wf());
                    assert(buffer.spec_width() == old(buffer).spec_width());
                    assert(buffer.spec_height() == old(buffer).spec_height());
                    assert(self.drawn_upto(*buffer, *old(buffer), size, i as int, j as int + 1));
                }
                j = j + 1;
            }
            proof {
                assert forall|x: int, y: int|
                    0 <= x < old(buffer).spec_width() && 0 <= y < old(buffer).spec_height() implies if x
                    < size.0 && y < size.1 && (x + 1 < i + 1 || (x + 1 == i + 1 && y + 1 < 1)) {
                    let w = self.screen_to_world(size, x + 1, y + 1);
                    &&& #[trigger] buffer.glyph(x, y) == shown(self.visible(w.0, w.1).0)
                    &&& buffer.styles_at(x, y) == self.visible(w.0, w.1).1
                } else {
                    &&& buffer.glyph(x, y) == old(buffer).glyph(x, y)
                    &&& buffer.styles_at(x, y) == old(buffer).styles_at(x, y)
                } by {
                    // Instantiate the inner invariant at this cell.
                    assert(buffer.glyph(x, y) == buffer.glyph(x, y));
                    assert(j == height + 1);
                }
                assert(self.drawn_upto(*buffer, *old(buffer), size, i as int + 1, 1));
            }
            i = i + 1;
        }
    }

    /// `buf` shows the world around the player on every cell, and the player's
    /// sprite in bold on the centre cell `(width / 2, height / 2)` (1-based).
    pub open spec fn frame_shows(&self, buf: FrameBuffer) -> bool {
        let size = (buf.spec_width() as usize, buf.spec_height() as usize);
        &&& buf.wf()
        &&& forall|x: int, y: int|
            0 <= x < buf.spec_width() && 0 <= y < buf.spec_height() ==> if x + 1 == size.0 / 2 && y
                + 1 == size.1 / 2 {
                &&& #[trigger] buf.glyph(x, y) == shown(self.spec_player().sprite)
                &&& buf.styles_at(x, y) == seq![Style::Bold]
            } else {
                let w = self.screen_to_world(size, x + 1, y + 1);
                &&& buf.glyph(x, y) == shown(self.visible(w.0, w.1).0)
                &&& buf.styles_at(x, y) == self.visible(w.0, w.1).1
            }
    }

    /// A world for `seed` with the player at `(0, 0, 128)`, render distance 8,
    /// and every chunk within the radius around the player loaded.
    pub fn new<H: Fn(i32, i32, u32) -> i32>(seed: u32, height: &H) -> (r: World)
        requires
            forall|x: i32, y: i32, s: u32| height.requires((x, y, s)),
        ensures
            r.wf(),
            r.spec_seed() == seed,
            r.spec_player() == Player::new_spec(0, 0, 128, '\u{263a}'),
            r.radius() == 4,
            is_default_tiles(r.registry()),
            r.resident() == window((0, 0), 4),
            r.built_from(*height),
    {
        let mut world = World {
            seed,
            player: Player::new(0, 0, 128, '\u{263a}'),
            chunk_render_distance: 8,
            chunks: Vec::new(),
            tiles: TileRegistry::new(),
        };
        proof {
            assert(world.resident() =~= Set::empty());
        }
        world.load_window((0, 0), height);
        proof {
            assert(world.resident() =~= window((0, 0), 4));
        }
        world
    }
}

/// `z` clamped to the vertical extent `0..256`.
pub open spec fn clamp_layer(z: int) -> int {
    if z < 0 {
        0
    } else if z > 255 {
        255
    } else {
        z
    }
}

/// The part of the square of radius `r` around `center` that has been visited
/// once the rows before `i`, and the first cells `j` of row `i - 1`, are done.
pub open spec fn loaded_part(center: (int, int), r: int, i: int, j: int) -> Set<(int, int)> {
    Set::new(
        |c: (int, int)|
            valid_chunk(c) && -r <= c.1 - center.1 <= r && -r <= c.0 - center.0 && (c.0 - center.0
                < i - 1 || (c.0 - center.0 == i - 1 && c.1 - center.1 < j)),
    )
}

/// Splitting a world coordinate into a chunk coordinate and a position in the
/// chunk loses nothing: the position lies in `0..32`, and `-1` lands on the
/// last position of chunk `-1`.
pub proof fn lemma_coordinate_wrap(c: int)
    ensures
        0 <= local_of(c) < 32,
        32 * chunk_of(c) + local_of(c) == c,
        chunk_of(-1) == -1,
        local_of(-1) == 31,
{
}

/// Neighbouring chunks built from the same height function and seed sample
/// their facing columns at neighbouring absolute world columns: column 31 of
/// chunk `(cx, cy)` at world x `32 * cx + 31`, column 0 of chunk `(cx + 1, cy)`
/// at world x `32 * cx + 32`. Both columns are layered by the same rule, so
/// the terrain runs on across the boundary.
pub proof fn lemma_seam_continuity<H: Fn(i32, i32, u32) -> i32>(
    a: Chunk,
    b: Chunk,
    height: H,
    seed: u32,
    j: int,
)
    requires
        a.built_from(height, seed),
        b.built_from(height, seed),
        b.coord() == (a.coord().0 + 1, a.coord().1),
        0 <= j < 32,
    ensures
        samples(height, 32 * a.coord().0 + 31, 32 * a.coord().1 + j, seed, a.surface(31, j)),
        samples(height, 32 * a.coord().0 + 32, 32 * a.coord().1 + j, seed, b.surface(0, j)),
        forall|z: int|
            0 <= z < 256 ==> #[trigger] a.tile(31, j, z) == layer_tile(z, a.surface(31, j) as int)
                && b.tile(0, j, z) == layer_tile(z, b.surface(0, j) as int),
{
    assert(samples(height, 32 * b.coord().0 + 0, 32 * b.coord().1 + j, seed, b.surface(0, j)));
    assert forall|z: int| 0 <= z < 256 implies #[trigger] a.tile(31, j, z) == layer_tile(
        z,
        a.surface(31, j) as int,
    ) && b.tile(0, j, z) == layer_tile(z, b.surface(0, j) as int) by {
        assert(b.tile(0, j, z) == layer_tile(z, b.surface(0, j) as int));
    }
}

/// Where the height function gives one result for each input, two chunks built
/// at the same coordinate from it and the same seed hold the same tiles.
pub proof fn lemma_build_deterministic<H: Fn(i32, i32, u32) -> i32>(
    a: Chunk,
    b: Chunk,
    height: H,
    seed: u32,
)
    requires
        a.built_from(height, seed),
        b.built_from(height, seed),
        a.coord() == b.coord(),
        forall|x: i32, y: i32, s: u32, r1: i32, r2: i32|
            height.ensures((x, y, s), r1) && height.ensures((x, y, s), r2) ==> r1 == r2,
    ensures
        forall|x: int, y: int, z: int|
            0 <= x < 32 && 0 <= y < 32 && 0 <= z < 256 ==> #[trigger] a.tile(x, y, z) == b.tile(
                x,
                y,
                z,
            ),
{
    assert forall|x: int, y: int, z: int|
        0 <= x < 32 && 0 <= y < 32 && 0 <= z < 256 implies #[trigger] a.tile(x, y, z) == b.tile(
        x,
        y,
        z,
    ) by {
        assert(samples(height, 32 * a.coord().0 + x, 32 * a.coord().1 + y, seed, a.surface(x, y)));
        assert(samples(height, 32 * b.coord().0 + x, 32 * b.coord().1 + y, seed, b.surface(x, y)));
        assert(b.tile(x, y, z) == layer_tile(z, b.surface(x, y) as int));
    }
}

/// Loading the same chunk twice in a row: the second load changes nothing,
/// so the chunk is not built again.
pub proof fn lemma_load_idempotent<H: Fn(i32, i32, u32) -> i32>(
    w0: World,
    w1: World,
    w2: World,
    c: (int, int),
    height: H,
)
    requires
        World::loads(w0, w1, c, height),
        World::loads(w1, w2, c, height),
    ensures
        w1.resident().contains(c),
        w2 == w1,
        w2.chunk_at(c) == w1.chunk_at(c),
{
}

/// Where the tile at the player's layer is air and the tile one layer below is
/// grass, the column shows grass as seen from above: green, not the side view
/// of grass and not air.
pub proof fn lemma_occlusion_fallthrough(w: World, x: int, y: int)
    requires
        w.wf(),
        w.tile_at(x, y, w.spec_player().z as int) == AIR_ID,
        w.tile_at(x, y, w.spec_player().z - 1) == GRASS_ID,
    ensures
        w.visible(x, y) == ('"', seq![Style::Fg(0, 255, 0), Style::Bold]),
        w.visible(x, y).1 != Grass::new_spec().glyph_styles(),
{
    assert(seq![Style::Fg(0, 255, 0), Style::Bold][0] != seq![Style::Fg(150, 75, 0), Style::Bold][0]);
}

} // verus!
