use vstd::prelude::*;

use crate::render::FrameBuffer;
use crate::render::Style;

verus! {

/// What every kind of terrain tile can do: draw itself (from the side, or
/// from above as an exposed surface) and report its properties.
pub trait Tile {
    /// The glyph drawn for the tile seen from the side.
    spec fn glyph(&self) -> char;

    /// The attributes of the side glyph.
    spec fn glyph_styles(&self) -> Seq<Style>;

    /// The glyph drawn for the tile seen from above.
    spec fn top_glyph(&self) -> char;

    /// The attributes of the top glyph.
    spec fn top_styles(&self) -> Seq<Style>;

    spec fn is_habitable(&self) -> bool;

    spec fn is_transparent(&self) -> bool;

    spec fn spec_name(&self) -> Seq<char>;

    fn render(&self, pos: (usize, usize), size: (usize, usize), buffer: &mut FrameBuffer)
        requires
            old(buffer).wf(),
        ensures
            final(buffer).is_drawn(old(buffer), pos, self.glyph_styles(), self.glyph()),
    ;

    fn render_top(&self, pos: (usize, usize), size: (usize, usize), buffer: &mut FrameBuffer)
        requires
            old(buffer).wf(),
        ensures
            final(buffer).is_drawn(old(buffer), pos, self.top_styles(), self.top_glyph()),
    ;

    fn habitable(&self) -> (r: bool)
        ensures
            r == self.is_habitable(),
    ;

    fn transparent(&self) -> (r: bool)
        ensures
            r == self.is_transparent(),
    ;

    fn name(&self) -> (r: String)
        ensures
            r@ == self.spec_name(),
    ;
}

/// Empty space. It is transparent, unless it marks the outside of the world.
#[derive(Clone, Copy, PartialEq, Eq, Debug, Structural)]
pub struct Air {
    out_of_bounds: bool,
}

impl Air {
    pub closed spec fn spec_out_of_bounds(&self) -> bool {
        self.out_of_bounds
    }

    pub fn new() -> (r: Air)
        ensures
            !r.spec_out_of_bounds(),
    {
        Air { out_of_bounds: false }
    }

    /// Air that stands for the outside of the world: it hides what lies below.
    pub fn new_out_of_bounds() -> (r: Air)
        ensures
            r.spec_out_of_bounds(),
    {
        Air { out_of_bounds: true }
    }
}

impl Tile for Air {
    open spec fn glyph(&self) -> char {
        ' '
    }

    open spec fn glyph_styles(&self) -> Seq<Style> {
        Seq::empty()
    }

    open spec fn top_glyph(&self) -> char {
        ' '
    }

    open spec fn top_styles(&self) -> Seq<Style> {
        Seq::empty()
    }

    open spec fn is_habitable(&self) -> bool {
        true
    }

    open spec fn is_transparent(&self) -> bool {
        !self.spec_out_of_bounds()
    }

    open spec fn spec_name(&self) -> Seq<char> {
        seq!['a', 'i', 'r']
    }

    fn render(&self, pos: (usize, usize), size: (usize, usize), buffer: &mut FrameBuffer) {
        let v: Vec<Style> = Vec::new();
        buffer.render(pos, v.as_slice(), ' ');
    }

    fn render_top(&self, pos: (usize, usize), size: (usize, usize), buffer: &mut FrameBuffer) {
        let v: Vec<Style> = Vec::new();
        buffer.render(pos, v.as_slice(), ' ');
    }

    fn habitable(&self) -> (r: bool) {
        true
    }

    fn transparent(&self) -> (r: bool) {
        !self.out_of_bounds
    }

    fn name(&self) -> (r: String) {
        let r = "air".to_string();
        proof {
            reveal_strlit("air");
        }
        r
    }
}

/// Grass: opaque, and green when its surface is seen from above.
#[derive(Clone, Copy, PartialEq, Eq, Debug, Structural)]
pub struct Grass {}

impl Grass {
    pub open spec fn new_spec() -> Grass {
        Grass {}
    }

    pub fn new() -> (r: Grass) {
        Grass {}
    }
}

impl Tile for Grass {
    open spec fn glyph(&self) -> char {
        '"'
    }

    open spec fn glyph_styles(&self) -> Seq<Style> {
        seq![Style::Fg(150, 75, 0), Style::Bold]
    }

    open spec fn top_glyph(&self) -> char {
        '"'
    }

    open spec fn top_styles(&self) -> Seq<Style> {
        seq![Style::Fg(0, 255, 0), Style::Bold]
    }

    open spec fn is_habitable(&self) -> bool {
        false
    }

    open spec fn is_transparent(&self) -> bool {
        false
    }

    open spec fn spec_name(&self) -> Seq<char> {
        seq!['g', 'r', 'a', 's', 's']
    }

    fn render(&self, pos: (usize, usize), size: (usize, usize), buffer: &mut FrameBuffer) {
        let v: Vec<Style> = vec![Style::Fg(150, 75, 0), Style::Bold];
        assert(v@ =~= self.glyph_styles());
        buffer.render(pos, v.as_slice(), '"');
    }

    fn render_top(&self, pos: (usize, usize), size: (usize, usize), buffer: &mut FrameBuffer) {
        let v: Vec<Style> = vec![Style::Fg(0, 255, 0), Style::Bold];
        buffer.render(pos, v.as_slice(), '"');
    }

    fn habitable(&self) -> (r: bool) {
        false
    }

    fn transparent(&self) -> (r: bool) {
        false
    }

    fn name(&self) -> (r: String) {
        let r = "grass".to_string();
        proof {
            reveal_strlit("grass");
        }
        r
    }
}

/// Dirt: opaque.
#[derive(Clone, Copy, PartialEq, Eq, Debug, Structural)]
pub struct Dirt {}

impl Dirt {
    pub fn new() -> (r: Dirt) {
        Dirt {}
    }
}

impl Tile for Dirt {
    open spec fn glyph(&self) -> char {
        '"'
    }

    open spec fn glyph_styles(&self) -> Seq<Style> {
        seq![Style::Fg(150, 75, 0)]
    }

    open spec fn top_glyph(&self) -> char {
        '.'
    }

    open spec fn top_styles(&self) -> Seq<Style> {
        Seq::empty()
    }

    open spec fn is_habitable(&self) -> bool {
        false
    }

    open spec fn is_transparent(&self) -> bool {
        false
    }

    open spec fn spec_name(&self) -> Seq<char> {
        seq!['d', 'i', 'r', 't']
    }

    fn render(&self, pos: (usize, usize), size: (usize, usize), buffer: &mut FrameBuffer) {
        let v: Vec<Style> = vec![Style::Fg(150, 75, 0)];
        assert(v@ =~= self.glyph_styles());
        buffer.render(pos, v.as_slice(), '"');
    }

    fn render_top(&self, pos: (usize, usize), size: (usize, usize), buffer: &mut FrameBuffer) {
        let v: Vec<Style> = Vec::new();
        buffer.render(pos, v.as_slice(), '.');
    }

    fn habitable(&self) -> (r: bool) {
        false
    }

    fn transparent(&self) -> (r: bool) {
        false
    }

    fn name(&self) -> (r: String) {
        let r = "dirt".to_string();
        proof {
            reveal_strlit("dirt");
        }
        r
    }
}

/// Stone: opaque.
#[derive(Clone, Copy, PartialEq, Eq, Debug, Structural)]
pub struct Stone {}

impl Stone {
    pub fn new() -> (r: Stone) {
        Stone {}
    }
}

impl Tile for Stone {
    open spec fn glyph(&self) -> char {
        '#'
    }

    open spec fn glyph_styles(&self) -> Seq<Style> {
        seq![Style::Fg(128, 128, 128)]
    }

    open spec fn top_glyph(&self) -> char {
        '.'
    }

    open spec fn top_styles(&self) -> Seq<Style> {
        Seq::empty()
    }

    open spec fn is_habitable(&self) -> bool {
        false
    }

    open spec fn is_transparent(&self) -> bool {
        false
    }

    open spec fn spec_name(&self) -> Seq<char> {
        seq!['s', 't', 'o', 'n', 'e']
    }

    fn render(&self, pos: (usize, usize), size: (usize, usize), buffer: &mut FrameBuffer) {
        let v: Vec<Style> = vec![Style::Fg(128, 128, 128)];
        assert(v@ =~= self.glyph_styles());
        buffer.render(pos, v.as_slice(), '#');
    }

    fn render_top(&self, pos: (usize, usize), size: (usize, usize), buffer: &mut FrameBuffer) {
        let v: Vec<Style> = Vec::new();
        buffer.render(pos, v.as_slice(), '.');
    }

    fn habitable(&self) -> (r: bool) {
        false
    }

    fn transparent(&self) -> (r: bool) {
        false
    }

    fn name(&self) -> (r: String) {
        let r = "stone".to_string();
        proof {
            reveal_strlit("stone");
        }
        r
    }
}

/// One entry of the tile table: the kind of a tile, with the tile itself.
#[derive(Clone, Copy, PartialEq, Eq, Debug, Structural)]
pub enum TileKind {
    Air(Air),
    Grass(Grass),
    Dirt(Dirt),
    Stone(Stone),
}

impl Tile for TileKind {
    open spec fn glyph(&self) -> char {
        match self {
            TileKind::Air(t) => t.glyph(),
            TileKind::Grass(t) => t.glyph(),
            TileKind::Dirt(t) => t.glyph(),
            TileKind::Stone(t) => t.glyph(),
        }
    }

    open spec fn glyph_styles(&self) -> Seq<Style> {
        match self {
            TileKind::Air(t) => t.glyph_styles(),
            TileKind::Grass(t) => t.glyph_styles(),
            TileKind::Dirt(t) => t.glyph_styles(),
            TileKind::Stone(t) => t.glyph_styles(),
        }
    }

    open spec fn top_glyph(&self) -> char {
        match self {
            TileKind::Air(t) => t.top_glyph(),
            TileKind::Grass(t) => t.top_glyph(),
            TileKind::Dirt(t) => t.top_glyph(),
            TileKind::Stone(t) => t.top_glyph(),
        }
    }

    open spec fn top_styles(&self) -> Seq<Style> {
        match self {
            TileKind::Air(t) => t.top_styles(),
            TileKind::Grass(t) => t.top_styles(),
            TileKind::Dirt(t) => t.top_styles(),
            TileKind::Stone(t) => t.top_styles(),
        }
    }

    open spec fn is_habitable(&self) -> bool {
        match self {
            TileKind::Air(t) => t.is_habitable(),
            TileKind::Grass(t) => t.is_habitable(),
            TileKind::Dirt(t) => t.is_habitable(),
            TileKind::Stone(t) => t.is_habitable(),
        }
    }

    open spec fn is_transparent(&self) -> bool {
        match self {
            TileKind::Air(t) => t.is_transparent(),
            TileKind::Grass(t) => t.is_transparent(),
            TileKind::Dirt(t) => t.is_transparent(),
            TileKind::Stone(t) => t.is_transparent(),
        }
    }

    open spec fn spec_name(&self) -> Seq<char> {
        match self {
            TileKind::Air(t) => t.spec_name(),
            TileKind::Grass(t) => t.spec_name(),
            TileKind::Dirt(t) => t.spec_name(),
            TileKind::Stone(t) => t.spec_name(),
        }
    }

    fn render(&self, pos: (usize, usize), size: (usize, usize), buffer: &mut FrameBuffer) {
        match self {
            TileKind::Air(t) => t.render(pos, size, buffer),
            TileKind::Grass(t) => t.render(pos, size, buffer),
            TileKind::Dirt(t) => t.render(pos, size, buffer),
            TileKind::Stone(t) => t.render(pos, size, buffer),
        }
    }

    fn render_top(&self, pos: (usize, usize), size: (usize, usize), buffer: &mut FrameBuffer) {
        match self {
            TileKind::Air(t) => t.render_top(pos, size, buffer),
            TileKind::Grass(t) => t.render_top(pos, size, buffer),
            TileKind::Dirt(t) => t.render_top(pos, size, buffer),
            TileKind::Stone(t) => t.render_top(pos, size, buffer),
        }
    }

    fn habitable(&self) -> (r: bool) {
        match self {
            TileKind::Air(t) => t.habitable(),
            TileKind::Grass(t) => t.habitable(),
            TileKind::Dirt(t) => t.habitable(),
            TileKind::Stone(t) => t.habitable(),
        }
    }

    fn transparent(&self) -> (r: bool) {
        match self {
            TileKind::Air(t) => t.transparent(),
            TileKind::Grass(t) => t.transparent(),
            TileKind::Dirt(t) => t.transparent(),
            TileKind::Stone(t) => t.transparent(),
        }
    }

    fn name(&self) -> (r: String) {
        match self {
            TileKind::Air(t) => t.name(),
            TileKind::Grass(t) => t.name(),
            TileKind::Dirt(t) => t.name(),
            TileKind::Stone(t) => t.name(),
        }
    }
}

/// The fixed tile set in its registration order: air, dirt, stone, grass.
pub open spec fn is_default_tiles(s: Seq<TileKind>) -> bool {
    &&& s.len() == 4
    &&& s[0] is Air && !s[0]->Air_0.spec_out_of_bounds()
    &&& s[1] == TileKind::Dirt(Dirt {})
    &&& s[2] == TileKind::Stone(Stone {})
    &&& s[3] == TileKind::Grass(Grass {})
}

/// The names of the fixed tile set, in registration order.
pub proof fn lemma_default_names(s: Seq<TileKind>)
    requires
        is_default_tiles(s),
    ensures
        s[0].spec_name() == "air"@,
        s[1].spec_name() == "dirt"@,
        s[2].spec_name() == "stone"@,
        s[3].spec_name() == "grass"@,
{
    reveal_strlit("air");
    reveal_strlit("dirt");
    reveal_strlit("stone");
    reveal_strlit("grass");
    assert(s[0].spec_name() =~= "air"@);
    assert(s[1].spec_name() =~= "dirt"@);
    assert(s[2].spec_name() =~= "stone"@);
    assert(s[3].spec_name() =~= "grass"@);
}

/// In the fixed tile set each name has one id: its place in registration order.
pub proof fn lemma_default_ids(s: Seq<TileKind>, name: Seq<char>, id: int)
    requires
        is_default_tiles(s),
        is_first_named(s, name, id),
    ensures
        name == "air"@ ==> id == 0,
        name == "dirt"@ ==> id == 1,
        name == "stone"@ ==> id == 2,
        name == "grass"@ ==> id == 3,
{
    lemma_default_names(s);
    reveal_strlit("air");
    reveal_strlit("dirt");
    reveal_strlit("stone");
    reveal_strlit("grass");
    assert(s[0].spec_name() != s[1].spec_name()) by {
        assert(s[0].spec_name().len() != s[1].spec_name().len());
    }
    assert(s[0].spec_name() != s[2].spec_name()) by {
        assert(s[0].spec_name().len() != s[2].spec_name().len());
    }
    assert(s[0].spec_name() != s[3].spec_name()) by {
        assert(s[0].spec_name().len() != s[3].spec_name().len());
    }
    assert(s[1].spec_name() != s[2].spec_name()) by {
        assert(s[1].spec_name().len() != s[2].spec_name().len());
    }
    assert(s[1].spec_name() != s[3].spec_name()) by {
        assert(s[1].spec_name().len() != s[3].spec_name().len());
    }
    assert(s[2].spec_name() != s[3].spec_name()) by {
        assert(s[2].spec_name()[0] != s[3].spec_name()[0]);
    }
    assert(0 <= id < 4);
    if id > 0 {
        assert(s[0].spec_name() != name);
    }
    if id > 1 {
        assert(s[1].spec_name() != name);
    }
    if id > 2 {
        assert(s[2].spec_name() != name);
    }
}

/// Appends the fixed tile set to `vec`, in registration order.
pub fn add_tiles(vec: &mut Vec<TileKind>)
    ensures
        final(vec)@.len() == old(vec)@.len() + 4,
        final(vec)@.subrange(0, old(vec)@.len() as int) == old(vec)@,
        is_default_tiles(final(vec)@.subrange(old(vec)@.len() as int, final(vec)@.len() as int)),
{
    vec.push(TileKind::Air(Air::new()));
    vec.push(TileKind::Dirt(Dirt::new()));
    vec.push(TileKind::Stone(Stone::new()));
    vec.push(TileKind::Grass(Grass::new()));
    proof {
        let n = old(vec)@.len() as int;
        assert(vec@.subrange(0, n) =~= old(vec)@);
        let tail = vec@.subrange(n, vec@.len() as int);
        assert(tail[0] == vec@[n]);
        assert(tail[3] == vec@[n + 3]);
    }
}

/// The table of tiles: a tile's id is its index here.
pub struct TileRegistry {
    tiles: Vec<TileKind>,
}

impl View for TileRegistry {
    type V = Seq<TileKind>;

    closed spec fn view(&self) -> Seq<TileKind> {
        self.tiles@
    }
}

/// The first id in `tiles` whose tile is named `name`.
pub open spec fn is_first_named(tiles: Seq<TileKind>, name: Seq<char>, id: int) -> bool {
    &&& 0 <= id < tiles.len()
    &&& tiles[id].spec_name() == name
    &&& forall|j: int| 0 <= j < id ==> (#[trigger] tiles[j]).spec_name() != name
}

impl TileRegistry {
    /// A registry holding the fixed tile set.
    pub fn new() -> (r: TileRegistry)
        ensures
            is_default_tiles(r@),
    {
        let mut tiles: Vec<TileKind> = Vec::new();
        add_tiles(&mut tiles);
        proof {
            assert(tiles@.subrange(0, 4) =~= tiles@);
        }
        TileRegistry { tiles }
    }

    pub fn len(&self) -> (r: usize)
        ensures
            r == self@.len(),
    {
        self.tiles.len()
    }

    /// The id of the first tile named `name`; the name must be registered.
    pub fn id_of(&self, name: &String) -> (r: usize)
        requires
            exists|i: int| 0 <= i < self@.len() && (#[trigger] self@[i]).spec_name() == name@,
        ensures
            is_first_named(self@, name@, r as int),
    {
        let mut i: usize = 0;
        while i < self.tiles.len()
            invariant
                i <= self.tiles@.len(),
                forall|j: int| 0 <= j < i ==> (#[trigger] self.tiles@[j]).spec_name() != name@,
                exists|k: int| 0 <= k < self.tiles@.len() && (#[trigger] self.tiles@[k]).spec_name() == name@,
            decreases self.tiles@.len() - i,
        {
            let n = self.tiles[i].name();
            if n == *name {
                return i;
            }
            i = i + 1;
        }
        i
    }

    /// The shared tile with id `id`.
    pub fn tile_at(&self, id: usize) -> (r: &TileKind)
        requires
            id < self@.len(),
        ensures
            *r == self@[id as int],
    {
        &self.tiles[id]
    }
}

} // verus!
