use vstd::prelude::*;
use noto_sans_mono_bitmap::{get_raster, get_raster_width, FontWeight, RasterHeight};

verus! {

/// Height of a character cell, in pixels.
pub const CHAR_RASTER_HEIGHT: usize = 16;

/// Vertical gap between text lines, in pixels.
pub const LINE_SPACING: usize = 2;

/// Horizontal gap between characters, in pixels.
pub const LETTER_SPACING: usize = 0;

/// Margin kept at the left and top edges, in pixels.
pub const BORDER_PADDING: usize = 1;

/// The character drawn for characters the font lacks.
pub const FALLBACK_CHAR: char = '\u{fffd}';

/// How a pixel's bytes are laid out.
#[derive(Debug, Clone, Copy, PartialEq, Eq, Structural)]
pub enum PixelLayout {
    /// Red, green, blue bytes.
    Rgb,
    /// Blue, green, red bytes.
    Bgr,
    /// One grayscale byte.
    U8,
    /// Any other layout.
    Other,
}

/// The geometry of a linear framebuffer.
#[derive(Debug, Clone, Copy, PartialEq, Eq, Structural)]
pub struct FbInfo {
    /// Size of the buffer in bytes.
    pub byte_len: usize,
    /// Visible width in pixels.
    pub width: usize,
    /// Visible height in pixels.
    pub height: usize,
    /// Layout of each pixel.
    pub format: PixelLayout,
    /// Bytes per pixel.
    pub bytes_per_pixel: usize,
    /// Pixels from the start of one line to the start of the next.
    pub stride: usize,
}

/// The rows of pixel intensities of a rasterized character.
pub open spec fn rows_view(r: &[&[u8]]) -> Seq<Seq<u8>> {
    r@.map_values(|row: &[u8]| row@)
}

/// The raster that the font gives for `c` at regular weight and height 16.
pub uninterp spec fn font_raster(c: char) -> Option<Seq<Seq<u8>>>;

/// Calls `noto_sans_mono_bitmap::get_raster` for regular weight and height
/// 16, and gives the character's raster and its width. The crate's source
/// builds every raster of this size as 16 rows of 7 bytes, gives the width
/// of the size (7), and holds the replacement character U+FFFD when its
/// `unicode-specials` feature is on, as it is here.
#[verifier::external_body]
fn raster_of(c: char) -> (r: Option<(&'static [&'static [u8]], usize)>)
    ensures
        match r {
            Some(g) => font_raster(c) == Some(rows_view(g.0)),
            None => font_raster(c) is None,
        },
        r matches Some(g) ==> g.1 == 7 && g.0@.len() == CHAR_RASTER_HEIGHT && forall|i: int|
            0 <= i < CHAR_RASTER_HEIGHT ==> (#[trigger] g.0@[i])@.len() == 7,
        c == FALLBACK_CHAR ==> r is Some,
{
    match get_raster(c, FontWeight::Regular, RasterHeight::Size16) {
        Some(g) => Some((g.raster(), g.width())),
        None => None,
    }
}

/// Calls `noto_sans_mono_bitmap::get_raster_width` for regular weight and
/// height 16; the crate's source gives 7.
#[verifier::external_body]
fn raster_width() -> (w: usize)
    ensures
        w == 7,
{
    get_raster_width(FontWeight::Regular, RasterHeight::Size16)
}

/// The raster drawn for `c`: its own, or the replacement character's.
pub open spec fn glyph_of(c: char) -> Seq<Seq<u8>> {
    match font_raster(c) {
        Some(g) => g,
        None => font_raster(FALLBACK_CHAR).unwrap(),
    }
}

/// The raster drawn for `c`, and its width.
pub fn char_raster(c: char) -> (r: (&'static [&'static [u8]], usize))
    ensures
        rows_view(r.0) == glyph_of(c),
        r.1 == 7,
        r.0@.len() == CHAR_RASTER_HEIGHT,
        forall|i: int| 0 <= i < CHAR_RASTER_HEIGHT ==> (#[trigger] r.0@[i])@.len() == 7,
{
    match raster_of(c) {
        Some(g) => g,
        None => {
            let f = raster_of(FALLBACK_CHAR);
            f.unwrap()
        },
    }
}

/// The bytes of a pixel of intensity `v`; the first `bytes_per_pixel` of
/// them are written.
pub open spec fn pixel_color(f: PixelLayout, v: u8) -> Seq<u8> {
    match f {
        PixelLayout::Rgb => seq![v, v, v / 2, 0u8],
        PixelLayout::Bgr => seq![v / 2, v, v, 0u8],
        PixelLayout::U8 => seq![if v > 200 { 0xFu8 } else { 0u8 }, 0u8, 0u8, 0u8],
        PixelLayout::Other => seq![v, v, v, v],
    }
}

/// The byte offset of pixel (`x`, `y`).
pub open spec fn pixel_offset(info: FbInfo, x: int, y: int) -> int {
    (y * info.stride + x) * info.bytes_per_pixel
}

/// Pixel (`x`, `y`) lies in a buffer of `len` bytes.
pub open spec fn pixel_in(info: FbInfo, len: int, x: int, y: int) -> bool {
    &&& 0 <= x
    &&& 0 <= y
    &&& info.bytes_per_pixel <= 4
    &&& y * info.stride + x <= usize::MAX
    &&& (y * info.stride + x + 1) * info.bytes_per_pixel <= len
}

/// The buffer `fb` with pixel (`x`, `y`) set to intensity `v`.
pub open spec fn put_pixel(fb: Seq<u8>, info: FbInfo, x: int, y: int, v: u8) -> Seq<u8> {
    let off = pixel_offset(info, x, y);
    Seq::new(
        fb.len(),
        |i: int|
            if off <= i < off + info.bytes_per_pixel {
                pixel_color(info.format, v)[i - off]
            } else {
                fb[i]
            },
    )
}

/// The buffer after drawing the first `k` pixels of `row` from (`x0`, `y`).
pub open spec fn put_row(fb: Seq<u8>, info: FbInfo, x0: int, y: int, row: Seq<u8>, k: nat) -> Seq<
    u8,
>
    decreases k,
{
    if k == 0 {
        fb
    } else {
        put_pixel(put_row(fb, info, x0, y, row, (k - 1) as nat), info, x0 + k - 1, y, row[k - 1])
    }
}

/// The buffer after drawing the first `n` rows of `rows` with their top
/// left pixel at (`x0`, `y0`), row by row.
pub open spec fn put_rows(fb: Seq<u8>, info: FbInfo, x0: int, y0: int, rows: Seq<Seq<u8>>, n: nat) -> Seq<
    u8,
>
    decreases n,
{
    if n == 0 {
        fb
    } else {
        let f = put_rows(fb, info, x0, y0, rows, (n - 1) as nat);
        put_row(f, info, x0, y0 + n - 1, rows[n - 1], rows[n - 1].len())
    }
}

/// A pixel left of and above a pixel in the buffer is in the buffer too.
pub proof fn lemma_pixel_in_below(info: FbInfo, len: int, x: int, y: int, mx: int, my: int)
    requires
        pixel_in(info, len, mx, my),
        0 <= x <= mx,
        0 <= y <= my,
    ensures
        pixel_in(info, len, x, y),
{
    assert(y * info.stride <= my * info.stride) by (nonlinear_arith)
        requires
            0 <= y <= my,
            info.stride >= 0,
    ;
    assert((y * info.stride + x + 1) * info.bytes_per_pixel <= (my * info.stride + mx + 1)
        * info.bytes_per_pixel) by (nonlinear_arith)
        requires
            0 <= y * info.stride + x + 1 <= my * info.stride + mx + 1,
            info.bytes_per_pixel >= 0,
    ;
}

/// The cursor after moving to the next line when a character at (`x`,
/// `y`) would reach the right edge.
pub open spec fn char_line(info: FbInfo, x: int, y: int) -> (int, int) {
    if x + 7 >= info.width {
        (BORDER_PADDING as int, y + CHAR_RASTER_HEIGHT + LINE_SPACING)
    } else {
        (x, y)
    }
}

/// Where the next character goes, given the cursor (`x`, `y`): on the next
/// line when it would reach the right edge, and back at the top of a
/// cleared screen when it would reach the bottom edge. The flag says
/// whether the screen is cleared.
pub open spec fn char_origin(info: FbInfo, x: int, y: int) -> (int, int, bool) {
    let (x1, y1) = char_line(info, x, y);
    if y1 + CHAR_RASTER_HEIGHT + BORDER_PADDING >= info.height {
        (BORDER_PADDING as int, BORDER_PADDING as int, true)
    } else {
        (x1, y1, false)
    }
}

/// Writing `c` at the cursor (`x`, `y`) into a buffer of `len` bytes keeps
/// the cursor arithmetic within `usize` and the drawn pixels within the
/// buffer.
pub open spec fn write_allowed(info: FbInfo, len: int, x: int, y: int, c: char) -> bool {
    if c == '\n' {
        y + CHAR_RASTER_HEIGHT + LINE_SPACING <= usize::MAX
    } else if c == '\r' {
        true
    } else {
        let o = char_origin(info, x, y);
        &&& x + 7 <= usize::MAX
        &&& char_line(info, x, y).1 + CHAR_RASTER_HEIGHT + BORDER_PADDING <= usize::MAX
        &&& pixel_in(info, len, o.0 + 6, o.1 + CHAR_RASTER_HEIGHT - 1)
    }
}

/// A buffer of `n` zero bytes.
pub open spec fn zeros(n: nat) -> Seq<u8> {
    Seq::new(n, |i: int| 0u8)
}

/// Sets every byte of `fb` to zero.
pub fn fill_zero(fb: &mut [u8])
    ensures
        final(fb)@ == zeros(old(fb)@.len()),
{
    let n = fb.len();
    let mut i: usize = 0;
    while i < n
        invariant
            n == fb@.len(),
            n == old(fb)@.len(),
            i <= n,
            forall|j: int| 0 <= j < i ==> fb@[j] == 0,
        decreases n - i,
    {
        fb[i] = 0;
        i += 1;
    }
    assert(fb@ =~= zeros(n as nat));
}

/// The bytes of a pixel of intensity `v`.
pub fn color_bytes(f: PixelLayout, v: u8) -> (c: [u8; 4])
    ensures
        c@ == pixel_color(f, v),
{
    let c = match f {
        PixelLayout::Rgb => [v, v, v / 2, 0],
        PixelLayout::Bgr => [v / 2, v, v, 0],
        PixelLayout::U8 => [if v > 200 {
            0xf
        } else {
            0
        }, 0, 0, 0],
        PixelLayout::Other => [v, v, v, v],
    };
    assert(c@ =~= pixel_color(f, v));
    c
}

/// Sets pixel (`x`, `y`) of `fb` to intensity `v`.
pub fn write_pixel(fb: &mut [u8], info: &FbInfo, x: usize, y: usize, v: u8)
    requires
        pixel_in(*info, old(fb)@.len() as int, x as int, y as int),
    ensures
        final(fb)@ == put_pixel(old(fb)@, *info, x as int, y as int, v),
{
    let bpp = info.bytes_per_pixel;
    let n = fb.len();
    assert(0 <= y * info.stride) by (nonlinear_arith);
    let poff = y * info.stride + x;
    assert(poff * bpp + bpp <= n) by (nonlinear_arith)
        requires
            (poff + 1) * bpp <= n,
    ;
    assert(poff * bpp <= n) by (nonlinear_arith)
        requires
            poff * bpp + bpp <= n,
            bpp >= 0,
            poff >= 0,
    ;
    let color = color_bytes(info.format, v);
    let byte_offset = poff * bpp;
    let ghost f0 = fb@;
    let ghost off = pixel_offset(*info, x as int, y as int);
    assert(off == byte_offset);
    let mut i: usize = 0;
    while i < bpp
        invariant
            bpp == info.bytes_per_pixel,
            bpp <= 4,
            off == byte_offset,
            byte_offset + bpp <= f0.len(),
            n == f0.len(),
            fb@.len() == f0.len(),
            color@ == pixel_color(info.format, v),
            i <= bpp,
            forall|j: int| 0 <= j < f0.len() && !(off <= j < off + i) ==> fb@[j] == f0[j],
            forall|j: int| off <= j < off + i ==> fb@[j] == color@[j - off],
        decreases bpp - i,
    {
        fb[byte_offset + i] = color[i];
        i += 1;
    }
    assert(fb@ =~= put_pixel(f0, *info, x as int, y as int, v));
}

/// The text cursor over a framebuffer: where the next character goes.
pub struct Writer {
    info: FbInfo,
    x_pos: usize,
    y_pos: usize,
}

impl Writer {
    /// The framebuffer's geometry.
    pub closed spec fn spec_info(&self) -> FbInfo {
        self.info
    }

    /// The cursor's column, in pixels.
    pub closed spec fn spec_x(&self) -> usize {
        self.x_pos
    }

    /// The cursor's line, in pixels.
    pub closed spec fn spec_y(&self) -> usize {
        self.y_pos
    }

    /// A writer for a framebuffer `fb` of geometry `info`; the screen is
    /// cleared and the cursor put at the top left corner.
    pub fn new(fb: &mut [u8], info: FbInfo) -> (w: Self)
        ensures
            w.spec_info() == info,
            w.spec_x() == BORDER_PADDING,
            w.spec_y() == BORDER_PADDING,
            final(fb)@ == zeros(old(fb)@.len()),
    {
        let mut w = Writer { info, x_pos: 0, y_pos: 0 };
        w.clear(fb);
        w
    }

    /// The framebuffer's geometry.
    pub fn info(&self) -> (i: FbInfo)
        ensures
            i == self.spec_info(),
    {
        self.info
    }

    /// The cursor's column.
    pub fn x_pos(&self) -> (x: usize)
        ensures
            x == self.spec_x(),
    {
        self.x_pos
    }

    /// The cursor's line.
    pub fn y_pos(&self) -> (y: usize)
        ensures
            y == self.spec_y(),
    {
        self.y_pos
    }

    /// Moves the cursor to the start of the next line.
    pub fn newline(&mut self)
        requires
            old(self).spec_y() + CHAR_RASTER_HEIGHT + LINE_SPACING <= usize::MAX,
        ensures
            final(self).spec_info() == old(self).spec_info(),
            final(self).spec_x() == BORDER_PADDING,
            final(self).spec_y() == old(self).spec_y() + CHAR_RASTER_HEIGHT + LINE_SPACING,
    {
        self.y_pos += CHAR_RASTER_HEIGHT + LINE_SPACING;
        self.carriage_return();
    }

    /// Moves the cursor to the start of its line.
    pub fn carriage_return(&mut self)
        ensures
            final(self).spec_info() == old(self).spec_info(),
            final(self).spec_x() == BORDER_PADDING,
            final(self).spec_y() == old(self).spec_y(),
    {
        self.x_pos = BORDER_PADDING;
    }

    /// Blanks the screen and puts the cursor at the top left corner.
    pub fn clear(&mut self, fb: &mut [u8])
        ensures
            final(self).spec_info() == old(self).spec_info(),
            final(self).spec_x() == BORDER_PADDING,
            final(self).spec_y() == BORDER_PADDING,
            final(fb)@ == zeros(old(fb)@.len()),
    {
        self.x_pos = BORDER_PADDING;
        self.y_pos = BORDER_PADDING;
        fill_zero(fb);
    }

    /// The visible width in pixels.
    pub fn width(&self) -> (w: usize)
        ensures
            w == self.spec_info().width,
    {
        self.info.width
    }

    /// The visible height in pixels.
    pub fn height(&self) -> (h: usize)
        ensures
            h == self.spec_info().height,
    {
        self.info.height
    }

    /// Draws `rows` (of `width` pixels each) at the cursor and moves the
    /// cursor right past it.
    pub fn write_rendered_char(&mut self, fb: &mut [u8], rows: &[&[u8]], width: usize)
        requires
            rows@.len() == CHAR_RASTER_HEIGHT,
            forall|i: int| 0 <= i < CHAR_RASTER_HEIGHT ==> (#[trigger] rows@[i])@.len() == width,
            width >= 1,
            old(self).spec_x() + width + LETTER_SPACING <= usize::MAX,
            old(self).spec_y() + CHAR_RASTER_HEIGHT <= usize::MAX,
            pixel_in(
                old(self).spec_info(),
                old(fb)@.len() as int,
                old(self).spec_x() + width - 1,
                old(self).spec_y() + CHAR_RASTER_HEIGHT - 1,
            ),
        ensures
            final(self).spec_info() == old(self).spec_info(),
            final(self).spec_x() == old(self).spec_x() + width + LETTER_SPACING,
            final(self).spec_y() == old(self).spec_y(),
            final(fb)@ == put_rows(
                old(fb)@,
                old(self).spec_info(),
                old(self).spec_x() as int,
                old(self).spec_y() as int,
                rows_view(rows),
                CHAR_RASTER_HEIGHT as nat,
            ),
    {
        let ghost f0 = fb@;
        let ghost info = self.info;
        let ghost rv = rows_view(rows);
        let x0 = self.x_pos;
        let y0 = self.y_pos;
        let mut y: usize = 0;
        while y < rows.len()
            invariant
                self.info == info,
                self.x_pos == x0,
                self.y_pos == y0,
                rv == rows_view(rows),
                rows@.len() == CHAR_RASTER_HEIGHT,
                forall|i: int| 0 <= i < CHAR_RASTER_HEIGHT ==> (#[trigger] rows@[i])@.len() == width,
                width >= 1,
                y0 + CHAR_RASTER_HEIGHT <= usize::MAX,
                x0 + width <= usize::MAX,
                fb@.len() == f0.len(),
                pixel_in(info, f0.len() as int, x0 + width - 1, y0 + CHAR_RASTER_HEIGHT - 1),
                y <= rows@.len(),
                fb@ == put_rows(f0, info, x0 as int, y0 as int, rv, y as nat),
            decreases rows@.len() - y,
        {
            let row = rows[y];
            assert(rv[y as int] == row@);
            let ghost base = fb@;
            let mut x: usize = 0;
            while x < row.len()
                invariant
                    self.info == info,
                    self.x_pos == x0,
                    self.y_pos == y0,
                    row@.len() == width,
                    rv[y as int] == row@,
                    y < CHAR_RASTER_HEIGHT,
                    y0 + CHAR_RASTER_HEIGHT <= usize::MAX,
                    x0 + width <= usize::MAX,
                    fb@.len() == f0.len(),
                    pixel_in(info, f0.len() as int, x0 + width - 1, y0 + CHAR_RASTER_HEIGHT - 1),
                    x <= row@.len(),
                    fb@ == put_row(base, info, x0 as int, y0 + y, row@, x as nat),
                decreases row@.len() - x,
            {
                proof {
                    lemma_pixel_in_below(
                        info,
                        f0.len() as int,
                        x0 + x,
                        y0 + y,
                        x0 + width - 1,
                        y0 + CHAR_RASTER_HEIGHT - 1,
                    );
                }
                write_pixel(fb, &self.info, x0 + x, y0 + y, row[x]);
                x += 1;
            }
            y += 1;
        }
        self.x_pos = x0 + width + LETTER_SPACING;
    }

    /// Writes one character: a newline moves to the next line, a carriage
    /// return to the start of the line; any other character is drawn (the
    /// replacement character when the font lacks it), after moving to the
    /// next line when it would reach the right edge and clearing the screen
    /// when it would reach the bottom edge.
    pub fn write_char(&mut self, fb: &mut [u8], c: char)
        requires
            write_allowed(
                old(self).spec_info(),
                old(fb)@.len() as int,
                old(self).spec_x() as int,
                old(self).spec_y() as int,
                c,
            ),
        ensures
            final(self).spec_info() == old(self).spec_info(),
            c == '\n' ==> final(fb)@ == old(fb)@ && final(self).spec_x() == BORDER_PADDING
                && final(self).spec_y() == old(self).spec_y() + CHAR_RASTER_HEIGHT + LINE_SPACING,
            c == '\r' ==> final(fb)@ == old(fb)@ && final(self).spec_x() == BORDER_PADDING
                && final(self).spec_y() == old(self).spec_y(),
            c != '\n' && c != '\r' ==> ({
                let o = char_origin(
                    old(self).spec_info(),
                    old(self).spec_x() as int,
                    old(self).spec_y() as int,
                );
                let base = if o.2 {
                    zeros(old(fb)@.len())
                } else {
                    old(fb)@
                };
                &&& final(fb)@ == put_rows(
                    base,
                    old(self).spec_info(),
                    o.0,
                    o.1,
                    glyph_of(c),
                    CHAR_RASTER_HEIGHT as nat,
                )
                &&& final(self).spec_x() == o.0 + 7
                &&& final(self).spec_y() == o.1
            }),
    {
        if c == '\n' {
            self.newline();
        } else if c == '\r' {
            self.carriage_return();
        } else {
            let char_width = raster_width();
            let new_xpos = self.x_pos + char_width;
            if new_xpos >= self.width() {
                self.newline();
            }
            let new_ypos = self.y_pos + CHAR_RASTER_HEIGHT + BORDER_PADDING;
            if new_ypos >= self.height() {
                self.clear(fb);
            }
            let (rows, width) = char_raster(c);
            self.write_rendered_char(fb, rows, width);
        }
    }

    /// Whether writing `c` into a buffer of `len` bytes is allowed now.
    pub fn can_write(&self, len: usize, c: char) -> (b: bool)
        ensures
            b == write_allowed(
                self.spec_info(),
                len as int,
                self.spec_x() as int,
                self.spec_y() as int,
                c,
            ),
    {
        if c == '\n' {
            return self.y_pos <= usize::MAX - (CHAR_RASTER_HEIGHT + LINE_SPACING);
        }
        if c == '\r' {
            return true;
        }
        if self.x_pos > usize::MAX - 7 {
            return false;
        }
        let (x1, y1): (usize, usize) = if self.x_pos + 7 >= self.info.width {
            if self.y_pos > usize::MAX - (CHAR_RASTER_HEIGHT + LINE_SPACING) {
                return false;
            }
            (BORDER_PADDING, self.y_pos + CHAR_RASTER_HEIGHT + LINE_SPACING)
        } else {
            (self.x_pos, self.y_pos)
        };
        if y1 > usize::MAX - (CHAR_RASTER_HEIGHT + BORDER_PADDING) {
            return false;
        }
        let (ox, oy): (usize, usize) = if y1 + CHAR_RASTER_HEIGHT + BORDER_PADDING
            >= self.info.height {
            (BORDER_PADDING, BORDER_PADDING)
        } else {
            (x1, y1)
        };
        let bpp = self.info.bytes_per_pixel;
        if bpp > 4 {
            return false;
        }
        let row = oy as u128 + (CHAR_RASTER_HEIGHT - 1) as u128;
        let stride = self.info.stride as u128;
        assert(row * stride <= 0xFFFF_FFFF_FFFF_FFFF * 0xFFFF_FFFF_FFFF_FFFF) by (nonlinear_arith)
            requires
                row <= 0xFFFF_FFFF_FFFF_FFFF,
                stride <= 0xFFFF_FFFF_FFFF_FFFF,
        ;
        let p = row * stride;
        let pos = p + ox as u128 + 6;
        if pos > usize::MAX as u128 {
            return false;
        }
        assert((pos + 1) * bpp <= 0x1_0000_0000_0000_0000 * 4) by (nonlinear_arith)
            requires
                pos + 1 <= 0x1_0000_0000_0000_0000,
                bpp <= 4,
        ;
        let bytes = (pos + 1) * bpp as u128;
        bytes <= len as u128
    }
}

/// On a screen at least one character cell plus margins wide and tall,
/// every character is drawn inside the visible area.
pub proof fn law_glyph_on_screen(info: FbInfo, x: int, y: int)
    requires
        info.width >= 9,
        info.height >= 18,
    ensures
        ({
            let o = char_origin(info, x, y);
            o.0 + 7 < info.width && o.1 + CHAR_RASTER_HEIGHT < info.height
        }),
{
}

} // verus!
