use vstd::prelude::*;

use crate::world::World;
use crate::Player;
use vstd::string::StringExecFns;

verus! {

/// A display attribute of one screen cell.
#[derive(Clone, Copy, PartialEq, Eq, Debug, Structural)]
pub enum Style {
    Bold,
    Italic,
    Underline,
    Blink,
    Fg(u8, u8, u8),
    Bg(u8, u8, u8),
}

/// `body` introduced as an ANSI control sequence (ESC, `[`).
pub open spec fn csi(body: Seq<char>) -> Seq<char> {
    seq!['\x1b', '['] + body
}

/// The decimal digits of `n`, most significant first, without leading zeros.
pub open spec fn decimal(n: nat) -> Seq<char>
    decreases n,
{
    if n < 10 {
        seq![seq!['0', '1', '2', '3', '4', '5', '6', '7', '8', '9'][n as int]]
    } else {
        decimal(n / 10) + seq![seq!['0', '1', '2', '3', '4', '5', '6', '7', '8', '9'][(n % 10) as int]]
    }
}

/// The parameters `r;g;b` of a true-colour sequence.
pub open spec fn rgb_params(r: u8, g: u8, b: u8) -> Seq<char> {
    decimal(r as nat) + seq![';'] + decimal(g as nat) + seq![';'] + decimal(b as nat)
}

/// The terminal sequence that switches on a style.
pub open spec fn style_code(style: Style) -> Seq<char> {
    match style {
        Style::Bold => csi(seq!['1', 'm']),
        Style::Italic => csi(seq!['3', 'm']),
        Style::Underline => csi(seq!['4', 'm']),
        Style::Blink => csi(seq!['5', 'm']),
        Style::Fg(r, g, b) => csi(seq!['3', '8', ';', '2', ';'] + rgb_params(r, g, b) + seq!['m']),
        Style::Bg(r, g, b) => csi(seq!['4', '8', ';', '2', ';'] + rgb_params(r, g, b) + seq!['m']),
    }
}

/// The sequence that resets every style.
pub open spec fn reset_code() -> Seq<char> {
    csi(seq!['m'])
}

/// The sequence that moves the cursor to the top left cell.
pub open spec fn home_code() -> Seq<char> {
    csi(seq!['1', ';', '1', 'H'])
}

/// Relies on termion's `style::Bold`, displayed as CSI `1m`.
#[verifier::external_body]
fn bold_code() -> (r: String)
    ensures
        r@ == csi(seq!['1', 'm']),
{
    format!("{}", termion::style::Bold)
}

/// Relies on termion's `style::Italic`, displayed as CSI `3m`.
#[verifier::external_body]
fn italic_code() -> (r: String)
    ensures
        r@ == csi(seq!['3', 'm']),
{
    format!("{}", termion::style::Italic)
}

/// Relies on termion's `style::Underline`, displayed as CSI `4m`.
#[verifier::external_body]
fn underline_code() -> (r: String)
    ensures
        r@ == csi(seq!['4', 'm']),
{
    format!("{}", termion::style::Underline)
}

/// Relies on termion's `style::Blink`, displayed as CSI `5m`.
#[verifier::external_body]
fn blink_code() -> (r: String)
    ensures
        r@ == csi(seq!['5', 'm']),
{
    format!("{}", termion::style::Blink)
}

/// Relies on termion's `style::Reset`, displayed as CSI `m`.
#[verifier::external_body]
fn reset_string() -> (r: String)
    ensures
        r@ == reset_code(),
{
    format!("{}", termion::style::Reset)
}

/// Relies on termion's `cursor::Goto(1, 1)`, displayed as CSI `1;1H`.
#[verifier::external_body]
fn home_string() -> (r: String)
    ensures
        r@ == home_code(),
{
    format!("{}", termion::cursor::Goto(1, 1))
}

/// Relies on termion's `color::Rgb::fg_string`: CSI `38;2;r;g;bm`, each
/// component in decimal.
#[verifier::external_body]
fn fg_code(r: u8, g: u8, b: u8) -> (s: String)
    ensures
        s@ == csi(seq!['3', '8', ';', '2', ';'] + rgb_params(r, g, b) + seq!['m']),
{
    termion::color::Rgb(r, g, b).fg_string()
}

/// Relies on termion's `color::Rgb::bg_string`: CSI `48;2;r;g;bm`, each
/// component in decimal.
#[verifier::external_body]
fn bg_code(r: u8, g: u8, b: u8) -> (s: String)
    ensures
        s@ == csi(seq!['4', '8', ';', '2', ';'] + rgb_params(r, g, b) + seq!['m']),
{
    termion::color::Rgb(r, g, b).bg_string()
}

/// Relies on `String::push`: appends one character.
#[verifier::external_body]
fn push_char(s: &mut String, c: char)
    ensures
        final(s)@ == old(s)@.push(c),
{
    s.push(c)
}

/// The terminal sequence for `style`.
pub fn style_string(style: Style) -> (r: String)
    ensures
        r@ == style_code(style),
{
    match style {
        Style::Bold => bold_code(),
        Style::Italic => italic_code(),
        Style::Underline => underline_code(),
        Style::Blink => blink_code(),
        Style::Fg(r, g, b) => fg_code(r, g, b),
        Style::Bg(r, g, b) => bg_code(r, g, b),
    }
}

/// The sequences of `styles`, one after another.
pub open spec fn styles_text(styles: Seq<Style>) -> Seq<char>
    decreases styles.len(),
{
    if styles.len() == 0 {
        Seq::empty()
    } else {
        styles_text(styles.drop_last()) + style_code(styles.last())
    }
}

/// Control characters (general category Cc): they are never put on screen.
pub open spec fn is_control(c: char) -> bool {
    (c as u32) <= 0x1f || (0x7f <= (c as u32) && (c as u32) <= 0x9f)
}

/// The character a cell shows for glyph `c`: control characters show as blanks.
pub open spec fn shown(c: char) -> char {
    if is_control(c) {
        ' '
    } else {
        c
    }
}

fn shown_char(c: char) -> (r: char)
    ensures
        r == shown(c),
{
    let u = c as u32;
    if u <= 0x1f || (0x7f <= u && u <= 0x9f) {
        ' '
    } else {
        c
    }
}

proof fn lemma_cell_index_unique(w: int, x1: int, y1: int, x2: int, y2: int)
    requires
        0 <= x1 < w,
        0 <= x2 < w,
        0 <= y1,
        0 <= y2,
        y1 * w + x1 == y2 * w + x2,
    ensures
        x1 == x2,
        y1 == y2,
{
    if y1 < y2 {
        assert(y1 * w + w <= y2 * w) by (nonlinear_arith)
            requires
                y1 < y2,
                0 <= w,
        ;
    } else if y2 < y1 {
        assert(y2 * w + w <= y1 * w) by (nonlinear_arith)
            requires
                y2 < y1,
                0 <= w,
        ;
    }
}

proof fn lemma_cell_index_in_range(w: int, h: int, x: int, y: int)
    requires
        0 <= x < w,
        0 <= y < h,
    ensures
        0 <= y * w + x < w * h,
{
    assert(0 <= y * w + x < w * h) by (nonlinear_arith)
        requires
            0 <= x < w,
            0 <= y < h,
    ;
}

/// An in-memory screen of `width` x `height` cells, each holding a glyph and
/// its display attributes. Positions handed to `render` are 1-based.
pub struct FrameBuffer {
    width: usize,
    height: usize,
    chars: Vec<char>,
    styles: Vec<Vec<Style>>,
}

impl FrameBuffer {
    pub closed spec fn wf(&self) -> bool {
        &&& self.width * self.height <= usize::MAX
        &&& self.chars@.len() == self.width * self.height
        &&& self.styles@.len() == self.width * self.height
    }

    pub closed spec fn spec_width(&self) -> nat {
        self.width as nat
    }

    pub closed spec fn spec_height(&self) -> nat {
        self.height as nat
    }

    /// The glyph shown at 0-based cell `(x, y)`.
    pub closed spec fn glyph(&self, x: int, y: int) -> char {
        self.chars@[y * self.width + x]
    }

    /// The display attributes of 0-based cell `(x, y)`.
    pub closed spec fn styles_at(&self, x: int, y: int) -> Seq<Style> {
        self.styles@[y * self.width + x]@
    }

    /// A blank screen: every cell shows a space with no attributes.
    pub fn new(width: usize, height: usize) -> (r: FrameBuffer)
        requires
            width * height <= usize::MAX,
        ensures
            r.wf(),
            r.spec_width() == width,
            r.spec_height() == height,
            forall|x: int, y: int| 0 <= x < width && 0 <= y < height ==> #[trigger] r.glyph(x, y) == ' ',
            forall|x: int, y: int|
                0 <= x < width && 0 <= y < height ==> #[trigger] r.styles_at(x, y) == Seq::<
                    Style,
                >::empty(),
    {
        let n: usize = width * height;
        let mut chars: Vec<char> = Vec::new();
        let mut styles: Vec<Vec<Style>> = Vec::new();
        let mut i: usize = 0;
        while i < n
            invariant
                i <= n,
                chars@.len() == i,
                styles@.len() == i,
                forall|k: int| 0 <= k < i ==> #[trigger] chars@[k] == ' ',
                forall|k: int| 0 <= k < i ==> (#[trigger] styles@[k])@ == Seq::<Style>::empty(),
            decreases n - i,
        {
            chars.push(' ');
            styles.push(Vec::new());
            i = i + 1;
        }
        let r = FrameBuffer { width, height, chars, styles };
        assert forall|x: int, y: int| 0 <= x < width && 0 <= y < height implies r.glyph(x, y) == ' '
            && r.styles_at(x, y) == Seq::<Style>::empty() by {
            lemma_cell_index_in_range(width as int, height as int, x, y);
            assert(r.chars@[y * width + x] == ' ');
            assert(r.styles@[y * width + x]@ == Seq::<Style>::empty());
        }
        r
    }

    pub fn width(&self) -> (r: usize)
        ensures
            r == self.spec_width(),
    {
        self.width
    }

    pub fn height(&self) -> (r: usize)
        ensures
            r == self.spec_height(),
    {
        self.height
    }

    /// The glyph and styles of 0-based cell `(x, y)`.
    pub fn cell(&self, x: usize, y: usize) -> (r: (char, &[Style]))
        requires
            self.wf(),
            x < self.spec_width(),
            y < self.spec_height(),
        ensures
            r.0 == self.glyph(x as int, y as int),
            r.1@ == self.styles_at(x as int, y as int),
    {
        proof {
            lemma_cell_index_in_range(self.width as int, self.height as int, x as int, y as int);
        }
        let idx = y * self.width + x;
        (self.chars[idx], self.styles[idx].as_slice())
    }

    /// `self` is `before` with cell `pos` (1-based) showing `disp` with
    /// attributes `style`, when `pos` lies on the screen; else `self` is `before`.
    pub open spec fn is_drawn(
        &self,
        before: &FrameBuffer,
        pos: (usize, usize),
        style: Seq<Style>,
        disp: char,
    ) -> bool {
        &&& self.wf()
        &&& self.spec_width() == before.spec_width()
        &&& self.spec_height() == before.spec_height()
        &&& forall|x: int, y: int|
            0 <= x < before.spec_width() && 0 <= y < before.spec_height() ==> {
                if x + 1 == pos.0 && y + 1 == pos.1 {
                    &&& #[trigger] self.glyph(x, y) == shown(disp)
                    &&& self.styles_at(x, y) == style
                } else {
                    &&& self.glyph(x, y) == before.glyph(x, y)
                    &&& self.styles_at(x, y) == before.styles_at(x, y)
                }
            }
    }

    /// Puts `disp` with attributes `style` at the 1-based position `pos`.
    /// A position outside the screen (or on row or column 0) is ignored.
    pub fn render(&mut self, pos: (usize, usize), style: &[Style], disp: char)
        requires
            old(self).wf(),
        ensures
            final(self).is_drawn(old(self), pos, style@, disp),
    {
        let (px, py) = pos;
        if px == 0 || py == 0 || px > self.width || py > self.height {
            return;
        }
        let x = px - 1;
        let y = py - 1;
        proof {
            lemma_cell_index_in_range(self.width as int, self.height as int, x as int, y as int);
        }
        let idx = y * self.width + x;
        let mut cell_styles: Vec<Style> = Vec::new();
        let mut k: usize = 0;
        while k < style.len()
            invariant
                k <= style@.len(),
                cell_styles@ == style@.subrange(0, k as int),
            decreases style@.len() - k,
        {
            cell_styles.push(style[k]);
            k = k + 1;
        }
        assert(cell_styles@ == style@);
        let ghost old_self = *self;
        self.chars.set(idx, shown_char(disp));
        self.styles.set(idx, cell_styles);
        assert forall|xx: int, yy: int|
            0 <= xx < self.width && 0 <= yy < self.height && !(xx == x && yy == y) implies #[trigger] self.glyph(
            xx,
            yy,
        ) == old_self.glyph(xx, yy) && self.styles_at(xx, yy) == old_self.styles_at(xx, yy) by {
            lemma_cell_index_in_range(self.width as int, self.height as int, xx, yy);
            if yy * self.width + xx == idx {
                lemma_cell_index_unique(self.width as int, xx, yy, x as int, y as int);
            }
        }
    }

    /// Draws the world around its player, then the player on top of it.
    pub fn render_world(&mut self, world: &World)
        requires
            old(self).wf(),
            world.wf(),
            world.screen_fits((old(self).spec_width() as usize, old(self).spec_height() as usize)),
        ensures
            final(self).spec_width() == old(self).spec_width(),
            final(self).spec_height() == old(self).spec_height(),
            world.frame_shows(*final(self)),
    {
        let size = (self.width, self.height);
        world.render(size, self);
        let ghost mid = *self;
        self.render_player(world.player());
        assert forall|x: int, y: int|
            0 <= x < self.spec_width() && 0 <= y < self.spec_height() implies if x + 1 == size.0 / 2
            && y + 1 == size.1 / 2 {
            &&& #[trigger] self.glyph(x, y) == shown(world.spec_player().sprite)
            &&& self.styles_at(x, y) == seq![Style::Bold]
        } else {
            let w = world.screen_to_world(size, x + 1, y + 1);
            &&& self.glyph(x, y) == shown(world.visible(w.0, w.1).0)
            &&& self.styles_at(x, y) == world.visible(w.0, w.1).1
        } by {
            // Instantiate the world drawing at this cell.
            assert(mid.glyph(x, y) == mid.glyph(x, y));
        }
    }

    /// Draws the player's sprite in bold on the centre cell.
    pub fn render_player(&mut self, player: &Player)
        requires
            old(self).wf(),
        ensures
            final(self).is_drawn(
                old(self),
                (old(self).spec_width() as usize / 2, old(self).spec_height() as usize / 2),
                seq![Style::Bold],
                player.sprite,
            ),
    {
        let v: Vec<Style> = vec![Style::Bold];
        assert(v@ =~= seq![Style::Bold]);
        self.render((self.width / 2, self.height / 2), v.as_slice(), player.sprite);
    }

    /// What the terminal receives for cell number `k`, counted row by row:
    /// a reset, the cell's styles, its glyph.
    pub open spec fn cell_text(&self, k: int) -> Seq<char> {
        let x = k % self.spec_width() as int;
        let y = k / self.spec_width() as int;
        reset_code() + styles_text(self.styles_at(x, y)) + seq![self.glyph(x, y)]
    }

    /// The text of the first `n` cells, row by row.
    pub open spec fn cells_text(&self, n: nat) -> Seq<char>
        decreases n,
    {
        if n == 0 {
            Seq::empty()
        } else {
            self.cells_text((n - 1) as nat) + self.cell_text(n - 1)
        }
    }

    /// The whole screen as terminal text: the cursor goes to the top left cell,
    /// then every cell follows, row by row.
    pub fn display_text(&self) -> (r: String)
        requires
            self.wf(),
        ensures
            r@ == home_code() + self.cells_text(self.spec_width() * self.spec_height()),
    {
        let mut out = home_string();
        let n: usize = self.width * self.height;
        let mut k: usize = 0;
        while k < n
            invariant
                self.wf(),
                n == self.spec_width() * self.spec_height(),
                k <= n,
                out@ == home_code() + self.cells_text(k as nat),
            decreases n - k,
        {
            let ghost before = out@;
            let reset = reset_string();
            out.append(reset.as_str());
            let cell_styles = &self.styles[k];
            let mut m: usize = 0;
            while m < cell_styles.len()
                invariant
                    m <= cell_styles@.len(),
                    out@ == before + reset_code() + styles_text(cell_styles@.subrange(0, m as int)),
                decreases cell_styles@.len() - m,
            {
                let code = style_string(cell_styles[m]);
                out.append(code.as_str());
                proof {
                    let next = cell_styles@.subrange(0, m + 1);
                    assert(next.drop_last() =~= cell_styles@.subrange(0, m as int));
                    assert(next.last() == cell_styles@[m as int]);
                }
                m = m + 1;
            }
            push_char(&mut out, self.chars[k]);
            proof {
                assert(cell_styles@.subrange(0, cell_styles@.len() as int) =~= cell_styles@);
                let w = self.width as int;
                let h = self.height as int;
                assert(w > 0) by (nonlinear_arith)
                    requires
                        0 <= k < w * h,
                        w >= 0,
                        h >= 0,
                ;
                vstd::arithmetic::div_mod::lemma_fundamental_div_mod(k as int, w);
                assert((k as int / w) * w + k as int % w == k) by (nonlinear_arith)
                    requires
                        k as int == w * (k as int / w) + k as int % w,
                ;
                assert(out@ =~= home_code() + self.cells_text((k + 1) as nat));
            }
            k = k + 1;
        }
        out
    }
}

} // verus!
