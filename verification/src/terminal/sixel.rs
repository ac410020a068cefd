//! Sixel graphics decoder
//!
//! Parses Sixel image data sent via DCS sequences and converts it to an RGBA
//! image. Each data character (`?` to `~`) encodes six vertical pixels;
//! `#Pc;Pu;Px;Py;Pz` defines or selects a colour, `!n` repeats the next data
//! character, `$` returns to the left edge and `-` moves down six pixels.
//!
//! HLS colour definitions with nonzero saturation are kept as HLS triples in
//! the palette; they are converted to RGB by the caller (the conversion is
//! done in floating point) through [`SixelDecoder::pending_hls`] and
//! [`SixelDecoder::resolve_hls`] before [`SixelDecoder::finish`].

use vstd::prelude::*;
use vstd::wrapping::u32_specs::{wrapping_add, wrapping_mul};

use crate::ascii::{parse_or, parse_unsigned_at, split_bytes, split_ranges};

verus! {

/// Maximum image dimension (16384 pixels)
pub const MAX_IMAGE_DIMENSION: u32 = 16384;

/// Maximum pixel buffer size (256MB)
pub const MAX_PIXEL_BUFFER_SIZE: usize = 268435456;

/// Sixel image data (after decoding)
#[derive(Debug, Clone)]
pub struct SixelImage {
    /// Unique image ID
    pub id: u32,
    /// Image width (pixels)
    pub width: u32,
    /// Image height (pixels)
    pub height: u32,
    /// RGBA pixel data (row-major, 4 bytes/pixel)
    pub data: Vec<u8>,
}

/// Decoder parse state
#[derive(Debug, Clone, Copy, PartialEq, Eq)]
pub enum SixelParseState {
    /// Waiting for sixel data
    Normal,
    /// `#` command (colour definition/selection)
    Color,
    /// `!` repeat count
    Rle,
    /// `"` raster attributes
    RasterAttr,
}

/// A palette entry: RGB, or an HLS definition not yet converted.
#[derive(Debug, Clone, Copy, PartialEq, Eq)]
pub enum PaletteColor {
    Rgb(u8, u8, u8),
    /// Hue (0-360), lightness and saturation (0-100)
    Hls(u32, u32, u32),
}

/// Abstract state of the decoder.
pub ghost struct SixelModel {
    pub palette: Seq<PaletteColor>,
    pub current_color: u8,
    /// Palette index per pixel, row-major; 255 = unpainted
    pub pixels: Seq<u8>,
    pub width: u32,
    pub height: u32,
    pub x: u32,
    /// Current row of sixels (six pixels each)
    pub y: u32,
    pub rle_count: Option<u32>,
    pub param_buf: Seq<u8>,
    pub state: SixelParseState,
    pub raster_attr: Option<(u32, u32, u32, u32)>,
}

/// The VT340 default palette: 16 colours, the rest black.
pub open spec fn default_palette() -> Seq<PaletteColor> {
    Seq::new(
        256,
        |i: int|
            if i == 1 {
                PaletteColor::Rgb(51, 51, 204)
            } else if i == 2 {
                PaletteColor::Rgb(204, 33, 33)
            } else if i == 3 {
                PaletteColor::Rgb(51, 204, 51)
            } else if i == 4 {
                PaletteColor::Rgb(204, 51, 204)
            } else if i == 5 {
                PaletteColor::Rgb(51, 204, 204)
            } else if i == 6 {
                PaletteColor::Rgb(204, 204, 51)
            } else if i == 7 {
                PaletteColor::Rgb(135, 135, 135)
            } else if i == 8 {
                PaletteColor::Rgb(68, 68, 68)
            } else if i == 9 {
                PaletteColor::Rgb(84, 84, 255)
            } else if i == 10 {
                PaletteColor::Rgb(255, 84, 84)
            } else if i == 11 {
                PaletteColor::Rgb(84, 255, 84)
            } else if i == 12 {
                PaletteColor::Rgb(255, 84, 255)
            } else if i == 13 {
                PaletteColor::Rgb(84, 255, 255)
            } else if i == 14 {
                PaletteColor::Rgb(255, 255, 84)
            } else if i == 15 {
                PaletteColor::Rgb(204, 204, 204)
            } else {
                PaletteColor::Rgb(0, 0, 0)
            },
    )
}

pub open spec fn initial_model() -> SixelModel {
    SixelModel {
        palette: default_palette(),
        current_color: 0,
        pixels: Seq::empty(),
        width: 0,
        height: 0,
        x: 0,
        y: 0,
        rle_count: None,
        param_buf: Seq::empty(),
        state: SixelParseState::Normal,
        raster_attr: None,
    }
}

pub open spec fn is_sixel_char(b: u8) -> bool {
    0x3f <= b && b <= 0x7e
}

pub open spec fn is_digit(b: u8) -> bool {
    0x30 <= b && b <= 0x39
}

/// A percentage (0-100) scaled to a byte, as `(v * 255 / 100).min(255)` with
/// 32-bit wrapping multiplication.
pub open spec fn pct_to_byte(v: u32) -> u8 {
    let s = wrapping_mul(v, 255) / 100;
    if s < 255 {
        s as u8
    } else {
        255u8
    }
}

/// The palette entry a colour definition `#Pc;Pu;Px;Py;Pz` gives.
pub open spec fn color_value(pu: u32, px: u32, py: u32, pz: u32) -> PaletteColor {
    if pu == 1 {
        if pz == 0 {
            PaletteColor::Rgb(pct_to_byte(py), pct_to_byte(py), pct_to_byte(py))
        } else {
            PaletteColor::Hls(px, py, pz)
        }
    } else {
        PaletteColor::Rgb(pct_to_byte(px), pct_to_byte(py), pct_to_byte(pz))
    }
}

/// `s.parse::<u32>().unwrap_or(d)`
pub open spec fn u32_or(s: Seq<u8>, d: nat) -> u32 {
    parse_or(s, 0xffff_ffff, d) as u32
}

/// Effect of a completed `#` command held in the parameter buffer.
pub open spec fn apply_color_command(m: SixelModel) -> SixelModel {
    let parts = split_bytes(m.param_buf, 0x3b);
    let idx = parse_or(parts[0], 255, 0) as u8;
    if parts.len() == 1 {
        SixelModel { current_color: idx, ..m }
    } else if parts.len() >= 5 {
        let c = color_value(u32_or(parts[1], 0), u32_or(parts[2], 0), u32_or(parts[3], 0), u32_or(parts[4], 0));
        SixelModel { palette: m.palette.update(idx as int, c), current_color: idx, ..m }
    } else {
        m
    }
}

/// Pixels of a `w`×`h` image placed in the top-left corner of a `tw`×`th`
/// image whose other pixels are unpainted.
pub open spec fn resized(old: Seq<u8>, w: nat, h: nat, tw: nat, th: nat) -> Seq<u8> {
    Seq::new(
        tw * th,
        |i: int|
            if i / (tw as int) < h && i % (tw as int) < w {
                old[(i / (tw as int)) * w + i % (tw as int)]
            } else {
                255u8
            },
    )
}

/// Growing the image to at least `nw`×`nh` pixels (each side capped at
/// 16384), keeping the pixels painted so far.
pub open spec fn ensure_size(m: SixelModel, nw: u32, nh: u32) -> SixelModel {
    if !(nw > m.width || nh > m.height) {
        m
    } else {
        let tw = if nw > m.width {
            if nw < MAX_IMAGE_DIMENSION {
                nw
            } else {
                MAX_IMAGE_DIMENSION
            }
        } else {
            if m.width < MAX_IMAGE_DIMENSION {
                m.width
            } else {
                MAX_IMAGE_DIMENSION
            }
        };
        let th = if nh > m.height {
            if nh < MAX_IMAGE_DIMENSION {
                nh
            } else {
                MAX_IMAGE_DIMENSION
            }
        } else {
            if m.height < MAX_IMAGE_DIMENSION {
                m.height
            } else {
                MAX_IMAGE_DIMENSION
            }
        };
        if tw * th > MAX_PIXEL_BUFFER_SIZE {
            m
        } else if m.width == 0 {
            SixelModel {
                pixels: Seq::new((tw * th) as nat, |i: int| 255u8),
                width: tw,
                height: th,
                ..m
            }
        } else {
            SixelModel {
                pixels: resized(m.pixels, m.width as nat, m.height as nat, tw as nat, th as nat),
                width: tw,
                height: th,
                ..m
            }
        }
    }
}

/// Effect of a completed `"` command held in the parameter buffer.
pub open spec fn apply_raster(m: SixelModel) -> SixelModel {
    let parts = split_bytes(m.param_buf, 0x3b);
    if parts.len() >= 4 {
        let ph = u32_or(parts[2], 0);
        let pv = u32_or(parts[3], 0);
        let m2 = SixelModel {
            raster_attr: Some((u32_or(parts[0], 1), u32_or(parts[1], 1), ph, pv)),
            ..m
        };
        if ph > 0 && pv > 0 {
            ensure_size(m2, ph, pv)
        } else {
            m2
        }
    } else {
        m
    }
}

/// Paints pixel (`x`, `y`) with colour `c`, growing the image first.
pub open spec fn set_pixel(m: SixelModel, x: u32, y: u32, c: u8) -> SixelModel {
    let m2 = ensure_size(m, wrapping_add(x, 1), wrapping_add(y, 1));
    let idx = wrapping_add(wrapping_mul(y, m2.width), x);
    if idx < m2.pixels.len() {
        SixelModel { pixels: m2.pixels.update(idx as int, c), ..m2 }
    } else {
        m2
    }
}

/// Paints the set bits of `pattern` from bit `bit` on in the current column.
pub open spec fn paint_bits(m: SixelModel, pattern: u8, bit: nat) -> SixelModel
    decreases 6 - bit,
{
    if bit >= 6 {
        m
    } else {
        let m2 = if (pattern >> (bit as u8)) & 1 != 0 {
            set_pixel(m, m.x, wrapping_add(wrapping_mul(m.y, 6), bit as u32), m.current_color)
        } else {
            m
        };
        paint_bits(m2, pattern, bit + 1)
    }
}

/// Draws one sixel column and advances.
pub open spec fn draw_column(m: SixelModel, pattern: u8) -> SixelModel {
    let m2 = paint_bits(m, pattern, 0);
    SixelModel { x: wrapping_add(m2.x, 1), ..m2 }
}

/// Draws a sixel `count` times.
pub open spec fn draw(m: SixelModel, pattern: u8, count: nat) -> SixelModel
    decreases count,
{
    if count == 0 {
        m
    } else {
        draw(draw_column(m, pattern), pattern, (count - 1) as nat)
    }
}

/// A byte in the normal state.
pub open spec fn normal_step(m: SixelModel, b: u8) -> SixelModel {
    if b == 0x23 {
        SixelModel { param_buf: Seq::empty(), state: SixelParseState::Color, ..m }
    } else if b == 0x21 {
        SixelModel { param_buf: Seq::empty(), state: SixelParseState::Rle, ..m }
    } else if b == 0x24 {
        SixelModel { x: 0, ..m }
    } else if b == 0x2d {
        SixelModel { y: wrapping_add(m.y, 1), x: 0, ..m }
    } else if b == 0x22 {
        SixelModel { param_buf: Seq::empty(), state: SixelParseState::RasterAttr, ..m }
    } else if is_sixel_char(b) {
        let count = match m.rle_count {
            Some(c) => c,
            None => 1u32,
        };
        draw(SixelModel { rle_count: None, ..m }, (b - 0x3f) as u8, count as nat)
    } else {
        m
    }
}

/// In the normal state the graphics return `$` takes the drawing column
/// back to 0 and changes nothing else: the sixel row, the pixels, the image
/// size, the colours, any pending repeat count and the state stay as they
/// were.
pub proof fn lemma_graphics_return(m: SixelModel)
    requires
        m.state == SixelParseState::Normal,
    ensures
        push_model(m, 0x24).x == 0,
        push_model(m, 0x24).y == m.y,
        push_model(m, 0x24).pixels == m.pixels,
        push_model(m, 0x24).width == m.width,
        push_model(m, 0x24).height == m.height,
        push_model(m, 0x24).palette == m.palette,
        push_model(m, 0x24).current_color == m.current_color,
        push_model(m, 0x24).rle_count == m.rle_count,
        push_model(m, 0x24).state == SixelParseState::Normal,
{
}

/// In the normal state the graphics new line `-` moves to the start of the
/// next sixel row and leaves the pixels, the colours and the state as they
/// were.
pub proof fn lemma_graphics_new_line(m: SixelModel)
    requires
        m.state == SixelParseState::Normal,
        m.y < u32::MAX,
    ensures
        push_model(m, 0x2d).x == 0,
        push_model(m, 0x2d).y == m.y + 1,
        push_model(m, 0x2d).pixels == m.pixels,
        push_model(m, 0x2d).width == m.width,
        push_model(m, 0x2d).height == m.height,
        push_model(m, 0x2d).palette == m.palette,
        push_model(m, 0x2d).current_color == m.current_color,
        push_model(m, 0x2d).state == SixelParseState::Normal,
{
}

/// A byte while a `#` command is being read.
pub open spec fn color_step(m: SixelModel, b: u8) -> SixelModel {
    if is_digit(b) || b == 0x3b {
        SixelModel { param_buf: m.param_buf.push(b), ..m }
    } else {
        let m2 = SixelModel { state: SixelParseState::Normal, ..apply_color_command(m) };
        if is_sixel_char(b) || b == 0x24 || b == 0x2d {
            normal_step(m2, b)
        } else if b == 0x23 {
            SixelModel { param_buf: Seq::empty(), state: SixelParseState::Color, ..m2 }
        } else if b == 0x21 {
            SixelModel { param_buf: Seq::empty(), state: SixelParseState::Rle, ..m2 }
        } else {
            m2
        }
    }
}

/// A byte while a `!` repeat count is being read.
pub open spec fn rle_step(m: SixelModel, b: u8) -> SixelModel {
    if is_digit(b) {
        SixelModel { param_buf: m.param_buf.push(b), ..m }
    } else {
        let count = u32_or(m.param_buf, 1);
        let m2 = SixelModel {
            rle_count: Some(if count > 1 { count } else { 1u32 }),
            state: SixelParseState::Normal,
            ..m
        };
        if is_sixel_char(b) {
            normal_step(m2, b)
        } else {
            m2
        }
    }
}

/// A byte while a `"` command is being read.
pub open spec fn raster_step(m: SixelModel, b: u8) -> SixelModel {
    if is_digit(b) || b == 0x3b {
        SixelModel { param_buf: m.param_buf.push(b), ..m }
    } else {
        let m2 = SixelModel { state: SixelParseState::Normal, ..apply_raster(m) };
        if is_sixel_char(b) || b == 0x23 || b == 0x21 || b == 0x24 || b == 0x2d {
            normal_step(m2, b)
        } else {
            m2
        }
    }
}

/// The decoder state after one more byte.
pub open spec fn push_model(m: SixelModel, b: u8) -> SixelModel {
    match m.state {
        SixelParseState::Normal => normal_step(m, b),
        SixelParseState::Color => color_step(m, b),
        SixelParseState::Rle => rle_step(m, b),
        SixelParseState::RasterAttr => raster_step(m, b),
    }
}

/// The RGBA bytes of palette index `idx` (component `k`): unpainted pixels
/// are transparent black.
pub open spec fn rgba_component(palette: Seq<PaletteColor>, idx: u8, k: int) -> u8 {
    if idx == 255 {
        0
    } else {
        match palette[idx as int] {
            PaletteColor::Rgb(r, g, b) => if k == 0 {
                r
            } else if k == 1 {
                g
            } else if k == 2 {
                b
            } else {
                255
            },
            PaletteColor::Hls(_, _, _) => 0,
        }
    }
}

/// The image a finished decoder yields: `None` when nothing was drawn or the
/// RGBA buffer would exceed the size limit.
pub open spec fn finished_image(m: SixelModel) -> Option<(u32, u32, Seq<u8>)> {
    if m.width == 0 || m.height == 0 {
        None
    } else if m.width * m.height * 4 > MAX_PIXEL_BUFFER_SIZE {
        None
    } else {
        Some(
            (
                m.width,
                m.height,
                Seq::new(
                    m.pixels.len() * 4,
                    |i: int| rgba_component(m.palette, m.pixels[i / 4], i % 4),
                ),
            ),
        )
    }
}

/// No palette entry still waits for HLS conversion.
pub open spec fn hls_resolved(m: SixelModel) -> bool {
    forall|i: int| 0 <= i < m.palette.len() ==> (#[trigger] m.palette[i]) is Rgb
}

/// Sixel decoder: receives data byte by byte; [`SixelDecoder::finish`]
/// produces the image.
pub struct SixelDecoder {
    palette: Vec<PaletteColor>,
    current_color: u8,
    pixels: Vec<u8>,
    width: u32,
    height: u32,
    x: u32,
    y: u32,
    rle_count: Option<u32>,
    param_buf: Vec<u8>,
    state: SixelParseState,
    raster_attr: Option<(u32, u32, u32, u32)>,
}

impl View for SixelDecoder {
    type V = SixelModel;

    closed spec fn view(&self) -> SixelModel {
        SixelModel {
            palette: self.palette@,
            current_color: self.current_color,
            pixels: self.pixels@,
            width: self.width,
            height: self.height,
            x: self.x,
            y: self.y,
            rle_count: self.rle_count,
            param_buf: self.param_buf@,
            state: self.state,
            raster_attr: self.raster_attr,
        }
    }
}

/// Well-formed decoder states: a full palette and a pixel buffer matching the
/// image size.
pub open spec fn model_wf(m: SixelModel) -> bool {
    &&& m.palette.len() == 256
    &&& m.pixels.len() == m.width * m.height
    &&& m.width <= MAX_IMAGE_DIMENSION
    &&& m.height <= MAX_IMAGE_DIMENSION
}

proof fn lemma_mul_bound(a: nat, b: nat, c: nat, d: nat)
    requires
        a <= c,
        b <= d,
    ensures
        a * b <= c * d,
{
    assert(a * b <= c * d) by (nonlinear_arith)
        requires
            a <= c,
            b <= d,
    ;
}

impl SixelDecoder {
    pub open spec fn wf(&self) -> bool {
        model_wf(self@)
    }

    /// Create new decoder
    pub fn new() -> (r: Self)
        ensures
            r.wf(),
            r@ == initial_model(),
    {
        let mut palette: Vec<PaletteColor> = Vec::new();
        let mut i: usize = 0;
        while i < 256
            invariant
                0 <= i <= 256,
                palette@.len() == i,
                forall|j: int| 0 <= j < i ==> palette@[j] == default_palette()[j],
            decreases 256 - i,
        {
            let c = if i == 1 {
                PaletteColor::Rgb(51, 51, 204)
            } else if i == 2 {
                PaletteColor::Rgb(204, 33, 33)
            } else if i == 3 {
                PaletteColor::Rgb(51, 204, 51)
            } else if i == 4 {
                PaletteColor::Rgb(204, 51, 204)
            } else if i == 5 {
                PaletteColor::Rgb(51, 204, 204)
            } else if i == 6 {
                PaletteColor::Rgb(204, 204, 51)
            } else if i == 7 {
                PaletteColor::Rgb(135, 135, 135)
            } else if i == 8 {
                PaletteColor::Rgb(68, 68, 68)
            } else if i == 9 {
                PaletteColor::Rgb(84, 84, 255)
            } else if i == 10 {
                PaletteColor::Rgb(255, 84, 84)
            } else if i == 11 {
                PaletteColor::Rgb(84, 255, 84)
            } else if i == 12 {
                PaletteColor::Rgb(255, 84, 255)
            } else if i == 13 {
                PaletteColor::Rgb(84, 255, 255)
            } else if i == 14 {
                PaletteColor::Rgb(255, 255, 84)
            } else if i == 15 {
                PaletteColor::Rgb(204, 204, 204)
            } else {
                PaletteColor::Rgb(0, 0, 0)
            };
            palette.push(c);
            i = i + 1;
        }
        let r = SixelDecoder {
            palette,
            current_color: 0,
            pixels: Vec::new(),
            width: 0,
            height: 0,
            x: 0,
            y: 0,
            rle_count: None,
            param_buf: Vec::new(),
            state: SixelParseState::Normal,
            raster_attr: None,
        };
        proof {
            assert(r@.palette =~= default_palette());
            assert(r@.pixels =~= Seq::<u8>::empty());
            assert(r@.param_buf =~= Seq::<u8>::empty());
        }
        r
    }

    /// Process one byte in streaming fashion
    pub fn push(&mut self, byte: u8)
        requires
            old(self).wf(),
        ensures
            final(self).wf(),
            final(self)@ == push_model(old(self)@, byte),
    {
        match self.state {
            SixelParseState::Normal => self.handle_normal(byte),
            SixelParseState::Color => self.handle_color(byte),
            SixelParseState::Rle => self.handle_rle(byte),
            SixelParseState::RasterAttr => self.handle_raster_attr(byte),
        }
    }

    fn handle_normal(&mut self, byte: u8)
        requires
            old(self).wf(),
        ensures
            final(self).wf(),
            final(self)@ == normal_step(old(self)@, byte),
    {
        if byte == 0x23 {
            self.param_buf.clear();
            self.state = SixelParseState::Color;
        } else if byte == 0x21 {
            self.param_buf.clear();
            self.state = SixelParseState::Rle;
        } else if byte == 0x24 {
            self.x = 0;
        } else if byte == 0x2d {
            self.y = self.y.wrapping_add(1);
            self.x = 0;
        } else if byte == 0x22 {
            self.param_buf.clear();
            self.state = SixelParseState::RasterAttr;
        } else if 0x3f <= byte && byte <= 0x7e {
            let pattern = byte - 0x3f;
            let count = match self.rle_count {
                Some(c) => c,
                None => 1,
            };
            self.rle_count = None;
            self.draw_sixel(pattern, count);
        }
    }

    fn handle_color(&mut self, byte: u8)
        requires
            old(self).wf(),
        ensures
            final(self).wf(),
            final(self)@ == color_step(old(self)@, byte),
    {
        if (0x30 <= byte && byte <= 0x39) || byte == 0x3b {
            self.param_buf.push(byte);
        } else {
            self.parse_color_command();
            self.state = SixelParseState::Normal;
            if 0x3f <= byte && byte <= 0x7e {
                self.handle_normal(byte);
            } else if byte == 0x23 {
                self.param_buf.clear();
                self.state = SixelParseState::Color;
            } else if byte == 0x21 {
                self.param_buf.clear();
                self.state = SixelParseState::Rle;
            } else if byte == 0x24 || byte == 0x2d {
                self.handle_normal(byte);
            }
        }
    }

    fn handle_rle(&mut self, byte: u8)
        requires
            old(self).wf(),
        ensures
            final(self).wf(),
            final(self)@ == rle_step(old(self)@, byte),
    {
        if 0x30 <= byte && byte <= 0x39 {
            self.param_buf.push(byte);
        } else {
            let count: u32 = match parse_unsigned_at(
                self.param_buf.as_slice(),
                0,
                self.param_buf.len(),
                false,
                0xffff_ffff,
            ) {
                Some(v) => v as u32,
                None => 1,
            };
            proof {
                assert(self.param_buf@.subrange(0, self.param_buf@.len() as int) =~= self.param_buf@);
            }
            self.rle_count = Some(
                if count > 1 {
                    count
                } else {
                    1
                },
            );
            self.state = SixelParseState::Normal;
            if 0x3f <= byte && byte <= 0x7e {
                self.handle_normal(byte);
            }
        }
    }

    fn handle_raster_attr(&mut self, byte: u8)
        requires
            old(self).wf(),
        ensures
            final(self).wf(),
            final(self)@ == raster_step(old(self)@, byte),
    {
        if (0x30 <= byte && byte <= 0x39) || byte == 0x3b {
            self.param_buf.push(byte);
        } else {
            self.parse_raster_attr();
            self.state = SixelParseState::Normal;
            if (0x3f <= byte && byte <= 0x7e) || byte == 0x23 || byte == 0x21 || byte == 0x24 || byte
                == 0x2d {
                self.handle_normal(byte);
            }
        }
    }

    /// `u32` field `i` of the split parameter buffer, or `d`.
    fn field_u32(&self, ranges: &Vec<(usize, usize)>, i: usize, d: u32) -> (r: u32)
        requires
            i < ranges@.len(),
            ranges@[i as int].0 <= ranges@[i as int].1 <= self.param_buf@.len(),
        ensures
            r == parse_or(
                self.param_buf@.subrange(ranges@[i as int].0 as int, ranges@[i as int].1 as int),
                0xffff_ffff,
                d as nat,
            ),
    {
        let (s, e) = ranges[i];
        match parse_unsigned_at(self.param_buf.as_slice(), s, e, false, 0xffff_ffff) {
            Some(v) => v as u32,
            None => d,
        }
    }

    fn parse_color_command(&mut self)
        requires
            old(self).wf(),
        ensures
            final(self).wf(),
            final(self)@ == apply_color_command(old(self)@),
    {
        let ghost parts = split_bytes(self.param_buf@, 0x3b);
        let ranges = split_ranges(self.param_buf.as_slice(), 0, self.param_buf.len(), 0x3b);
        proof {
            assert(self.param_buf@.subrange(0, self.param_buf@.len() as int) =~= self.param_buf@);
            crate::ascii::lemma_split_nonempty(self.param_buf@, 0x3b);
        }
        if ranges.len() == 0 {
            return;
        }
        let (s0, e0) = ranges[0];
        let color_idx: u8 = match parse_unsigned_at(self.param_buf.as_slice(), s0, e0, false, 255) {
            Some(v) => v as u8,
            None => 0,
        };
        if ranges.len() == 1 {
            self.current_color = color_idx;
        } else if ranges.len() >= 5 {
            let pu = self.field_u32(&ranges, 1, 0);
            let px = self.field_u32(&ranges, 2, 0);
            let py = self.field_u32(&ranges, 3, 0);
            let pz = self.field_u32(&ranges, 4, 0);
            let c = if pu == 1 {
                if pz == 0 {
                    let v = pct_to_byte_exec(py);
                    PaletteColor::Rgb(v, v, v)
                } else {
                    PaletteColor::Hls(px, py, pz)
                }
            } else {
                PaletteColor::Rgb(pct_to_byte_exec(px), pct_to_byte_exec(py), pct_to_byte_exec(pz))
            };
            self.palette.set(color_idx as usize, c);
            self.current_color = color_idx;
        }
    }

    fn parse_raster_attr(&mut self)
        requires
            old(self).wf(),
        ensures
            final(self).wf(),
            final(self)@ == apply_raster(old(self)@),
    {
        let ranges = split_ranges(self.param_buf.as_slice(), 0, self.param_buf.len(), 0x3b);
        proof {
            assert(self.param_buf@.subrange(0, self.param_buf@.len() as int) =~= self.param_buf@);
        }
        if ranges.len() >= 4 {
            let pan = self.field_u32(&ranges, 0, 1);
            let pad = self.field_u32(&ranges, 1, 1);
            let ph = self.field_u32(&ranges, 2, 0);
            let pv = self.field_u32(&ranges, 3, 0);
            self.raster_attr = Some((pan, pad, ph, pv));
            if ph > 0 && pv > 0 {
                self.ensure_size(ph, pv);
            }
        }
    }

    fn draw_sixel(&mut self, pattern: u8, count: u32)
        requires
            old(self).wf(),
        ensures
            final(self).wf(),
            final(self)@ == draw(old(self)@, pattern, count as nat),
    {
        let mut k: u32 = 0;
        while k < count
            invariant
                0 <= k <= count,
                self.wf(),
                draw(self@, pattern, (count - k) as nat) == draw(old(self)@, pattern, count as nat),
            decreases count - k,
        {
            let ghost before = self@;
            let px = self.x;
            let py_base = self.y.wrapping_mul(6);
            let mut bit: u32 = 0;
            while bit < 6
                invariant
                    0 <= bit <= 6,
                    self.wf(),
                    px == before.x,
                    self@.x == before.x,
                    self@.y == before.y,
                    self@.current_color == before.current_color,
                    py_base == wrapping_mul(before.y, 6),
                    paint_bits(self@, pattern, bit as nat) == paint_bits(before, pattern, 0),
                decreases 6 - bit,
            {
                if (pattern >> (bit as u8)) & 1 != 0 {
                    let py = py_base.wrapping_add(bit);
                    let c = self.current_color;
                    self.set_pixel(px, py, c);
                }
                bit = bit + 1;
            }
            self.x = self.x.wrapping_add(1);
            k = k + 1;
        }
    }

    fn set_pixel(&mut self, x: u32, y: u32, color: u8)
        requires
            old(self).wf(),
        ensures
            final(self).wf(),
            final(self)@ == set_pixel(old(self)@, x, y, color),
    {
        let new_w = x.wrapping_add(1);
        let new_h = y.wrapping_add(1);
        self.ensure_size(new_w, new_h);
        let idx = y.wrapping_mul(self.width).wrapping_add(x) as usize;
        if idx < self.pixels.len() {
            self.pixels.set(idx, color);
        }
    }

    fn ensure_size(&mut self, new_w: u32, new_h: u32)
        requires
            old(self).wf(),
        ensures
            final(self).wf(),
            final(self)@ == ensure_size(old(self)@, new_w, new_h),
    {
        let need_resize = new_w > self.width || new_h > self.height;
        if !need_resize {
            return;
        }
        let mw = if new_w > self.width {
            new_w
        } else {
            self.width
        };
        let mh = if new_h > self.height {
            new_h
        } else {
            self.height
        };
        let target_w = if mw < MAX_IMAGE_DIMENSION {
            mw
        } else {
            MAX_IMAGE_DIMENSION
        };
        let target_h = if mh < MAX_IMAGE_DIMENSION {
            mh
        } else {
            MAX_IMAGE_DIMENSION
        };
        proof {
            lemma_mul_bound(target_w as nat, target_h as nat, 16384, 16384);
        }
        let size = (target_w as usize) * (target_h as usize);
        if size > MAX_PIXEL_BUFFER_SIZE {
            return;
        }
        if self.width == 0 {
            self.pixels = filled(size, 255);
            self.width = target_w;
            self.height = target_h;
        } else {
            let new_pixels = resize_canvas(
                &self.pixels,
                self.width,
                self.height,
                target_w,
                target_h,
            );
            self.pixels = new_pixels;
            self.width = target_w;
            self.height = target_h;
        }
    }

    /// Palette entries still holding HLS definitions: (index, h, l, s).
    pub fn pending_hls(&self) -> (r: Vec<(u8, u32, u32, u32)>)
        requires
            self.wf(),
        ensures
            forall|k: int|
                0 <= k < r@.len() ==> self@.palette[(#[trigger] r@[k]).0 as int] == PaletteColor::Hls(
                    r@[k].1,
                    r@[k].2,
                    r@[k].3,
                ),
            forall|i: int|
                0 <= i < 256 && self@.palette[i] is Hls ==> exists|k: int|
                    0 <= k < r@.len() && (#[trigger] r@[k]).0 == i,
    {
        let mut r: Vec<(u8, u32, u32, u32)> = Vec::new();
        let mut i: usize = 0;
        while i < 256
            invariant
                0 <= i <= 256,
                self.wf(),
                forall|k: int|
                    0 <= k < r@.len() ==> self@.palette[(#[trigger] r@[k]).0 as int]
                        == PaletteColor::Hls(r@[k].1, r@[k].2, r@[k].3),
                forall|j: int|
                    0 <= j < i && self@.palette[j] is Hls ==> exists|k: int|
                        0 <= k < r@.len() && (#[trigger] r@[k]).0 == j,
            decreases 256 - i,
        {
            match self.palette[i] {
                PaletteColor::Hls(h, l, s) => {
                    let ghost before = r@;
                    r.push((i as u8, h, l, s));
                    proof {
                        assert(r@[r@.len() - 1].0 == i);
                        assert forall|j: int|
                            0 <= j < i + 1 && self@.palette[j] is Hls implies exists|k: int|
                                0 <= k < r@.len() && (#[trigger] r@[k]).0 == j by {
                            if j < i {
                                let k = choose|k: int| 0 <= k < before.len() && (#[trigger] before[k]).0 == j;
                                assert(r@[k] == before[k]);
                            } else {
                                assert(r@[r@.len() - 1].0 == j);
                            }
                        }
                    }
                },
                PaletteColor::Rgb(_, _, _) => {},
            }
            i = i + 1;
        }
        r
    }

    /// Replaces palette entry `idx` by its RGB value.
    pub fn resolve_hls(&mut self, idx: u8, rgb: (u8, u8, u8))
        requires
            old(self).wf(),
        ensures
            final(self).wf(),
            final(self)@ == (SixelModel {
                palette: old(self)@.palette.update(idx as int, PaletteColor::Rgb(rgb.0, rgb.1, rgb.2)),
                ..old(self)@
            }),
    {
        self.palette.set(idx as usize, PaletteColor::Rgb(rgb.0, rgb.1, rgb.2));
    }

    /// Decode complete: generates the RGBA image.
    pub fn finish(self, id: u32) -> (r: Option<SixelImage>)
        requires
            self.wf(),
            hls_resolved(self@),
        ensures
            match (r, finished_image(self@)) {
                (Some(img), Some((w, h, data))) => img.id == id && img.width == w && img.height == h
                    && img.data@ == data,
                (None, None) => true,
                _ => false,
            },
    {
        if self.width == 0 || self.height == 0 {
            return None;
        }
        proof {
            lemma_mul_bound(self.width as nat, self.height as nat, 16384, 16384);
        }
        let wh = (self.width as usize) * (self.height as usize);
        if wh > MAX_PIXEL_BUFFER_SIZE / 4 {
            return None;
        }
        let ghost target = Seq::new(
            self@.pixels.len() * 4,
            |i: int| rgba_component(self@.palette, self@.pixels[i / 4], i % 4),
        );
        let mut data: Vec<u8> = Vec::new();
        let mut k: usize = 0;
        while k < self.pixels.len()
            invariant
                0 <= k <= self.pixels@.len(),
                self.wf(),
                hls_resolved(self@),
                target == Seq::new(
                    self@.pixels.len() * 4,
                    |i: int| rgba_component(self@.palette, self@.pixels[i / 4], i % 4),
                ),
                data@.len() == 4 * k,
                forall|i: int| 0 <= i < 4 * k ==> data@[i] == target[i],
            decreases self.pixels@.len() - k,
        {
            let idx = self.pixels[k];
            if idx == 255 {
                data.push(0);
                data.push(0);
                data.push(0);
                data.push(0);
            } else {
                match self.palette[idx as usize] {
                    PaletteColor::Rgb(r, g, b) => {
                        data.push(r);
                        data.push(g);
                        data.push(b);
                        data.push(255);
                    },
                    PaletteColor::Hls(_, _, _) => {
                        proof {
                            assert(self@.palette[idx as int] is Rgb);
                        }
                        data.push(0);
                        data.push(0);
                        data.push(0);
                        data.push(0);
                    },
                }
            }
            proof {
                assert forall|i: int| 0 <= i < 4 * (k + 1) implies data@[i] == target[i] by {
                    if i >= 4 * k {
                        assert(i / 4 == k);
                        assert(i % 4 == i - 4 * k);
                    }
                }
            }
            k = k + 1;
        }
        proof {
            assert(data@ =~= target);
        }
        Some(SixelImage { id, width: self.width, height: self.height, data })
    }
}

/// A vector of `n` copies of `v`.
fn filled(n: usize, v: u8) -> (r: Vec<u8>)
    ensures
        r@ == Seq::new(n as nat, |i: int| v),
{
    let mut r: Vec<u8> = Vec::new();
    let mut i: usize = 0;
    while i < n
        invariant
            0 <= i <= n,
            r@ == Seq::new(i as nat, |j: int| v),
        decreases n - i,
    {
        r.push(v);
        proof {
            assert(r@ =~= Seq::new((i + 1) as nat, |j: int| v));
        }
        i = i + 1;
    }
    r
}

fn pct_to_byte_exec(v: u32) -> (r: u8)
    ensures
        r == pct_to_byte(v),
{
    let s = v.wrapping_mul(255) / 100;
    if s < 255 {
        s as u8
    } else {
        255
    }
}

/// Copy of a `w`×`h` image into the top-left corner of an unpainted
/// `tw`×`th` image.
fn resize_canvas(pixels: &Vec<u8>, w: u32, h: u32, tw: u32, th: u32) -> (r: Vec<u8>)
    requires
        pixels@.len() == w * h,
        0 < w <= tw,
        h <= th,
        tw * th <= MAX_PIXEL_BUFFER_SIZE,
    ensures
        r@ == resized(pixels@, w as nat, h as nat, tw as nat, th as nat),
        r@.len() == tw * th,
{
    let size = (tw as usize) * (th as usize);
    let mut out = filled(size, 255);
    let ghost target = resized(pixels@, w as nat, h as nat, tw as nat, th as nat);
    proof {
        lemma_mul_bound(w as nat, h as nat, tw as nat, th as nat);
        assert forall|r: int, c: int|
            #![trigger out@[r * tw + c]]
            0 <= r < th && 0 <= c < tw implies out@[r * tw + c] == 255u8 by {
            lemma_index_in_grid(r, c, tw as int, th as int);
        }
    }
    let mut row: u32 = 0;
    while row < h
        invariant
            0 <= row <= h,
            pixels@.len() == w * h,
            w * h <= tw * th,
            0 < w <= tw,
            h <= th,
            size == tw * th,
            tw * th <= MAX_PIXEL_BUFFER_SIZE,
            out@.len() == size,
            forall|r: int, c: int|
                #![trigger out@[r * tw + c]]
                0 <= r < th && 0 <= c < tw ==> out@[r * tw + c] == (if r < row && c < w {
                    pixels@[r * w + c]
                } else {
                    255u8
                }),
        decreases h - row,
    {
        let mut col: u32 = 0;
        while col < w
            invariant
                0 <= row < h,
                0 <= col <= w,
                pixels@.len() == w * h,
                w * h <= tw * th,
                0 < w <= tw,
                h <= th,
                size == tw * th,
                tw * th <= MAX_PIXEL_BUFFER_SIZE,
                out@.len() == size,
                forall|r: int, c: int|
                    #![trigger out@[r * tw + c]]
                    0 <= r < th && 0 <= c < tw ==> out@[r * tw + c] == (if (r < row || (r == row
                        && c < col)) && c < w {
                        pixels@[r * w + c]
                    } else {
                        255u8
                    }),
            decreases w - col,
        {
            proof {
                lemma_index_in_grid(row as int, col as int, tw as int, th as int);
                lemma_index_in_grid(row as int, col as int, w as int, h as int);
            }
            let src = (row as usize) * (w as usize) + (col as usize);
            let dst = (row as usize) * (tw as usize) + (col as usize);
            let v = pixels[src];
            out.set(dst, v);
            proof {
                assert forall|r: int, c: int|
                    #![trigger out@[r * tw + c]]
                    0 <= r < th && 0 <= c < tw implies out@[r * tw + c] == (if (r < row || (r
                        == row && c < col + 1)) && c < w {
                        pixels@[r * w + c]
                    } else {
                        255u8
                    }) by {
                    lemma_index_in_grid(r, c, tw as int, th as int);
                    if r * tw + c == dst {
                        lemma_grid_index_unique(r, c, row as int, col as int, tw as int);
                    }
                }
            }
            col = col + 1;
        }
        row = row + 1;
    }
    proof {
        assert forall|i: int| 0 <= i < out@.len() implies out@[i] == target[i] by {
            let r = i / (tw as int);
            let c = i % (tw as int);
            lemma_grid_split(i, tw as int, th as int);
            assert(out@[r * tw + c] == out@[i]);
        }
        assert(out@ =~= target);
    }
    out
}

/// Cell (`r`, `c`) of a grid `cols` wide and `rows` high lies inside it.
pub proof fn lemma_index_in_grid(r: int, c: int, cols: int, rows: int)
    requires
        0 <= r < rows,
        0 <= c < cols,
    ensures
        0 <= r * cols + c < cols * rows,
        r * cols + c < (r + 1) * cols,
{
    assert(0 <= r * cols + c < cols * rows) by (nonlinear_arith)
        requires
            0 <= r < rows,
            0 <= c < cols,
    ;
    assert(r * cols + c < (r + 1) * cols) by (nonlinear_arith)
        requires
            0 <= c < cols,
    ;
}

/// Row-major positions identify their cell.
pub proof fn lemma_grid_index_unique(r: int, c: int, r2: int, c2: int, cols: int)
    requires
        0 <= c < cols,
        0 <= c2 < cols,
        0 <= r,
        0 <= r2,
        r * cols + c == r2 * cols + c2,
    ensures
        r == r2 && c == c2,
{
    vstd::arithmetic::div_mod::lemma_fundamental_div_mod_converse(r * cols + c, cols, r, c);
    vstd::arithmetic::div_mod::lemma_fundamental_div_mod_converse(r2 * cols + c2, cols, r2, c2);
}

/// A row-major position splits into its row and column.
pub proof fn lemma_grid_split(i: int, cols: int, rows: int)
    requires
        0 < cols,
        0 <= i < cols * rows,
    ensures
        0 <= i / cols < rows,
        0 <= i % cols < cols,
        (i / cols) * cols + i % cols == i,
{
    vstd::arithmetic::div_mod::lemma_fundamental_div_mod(i, cols);
    vstd::arithmetic::mul::lemma_mul_is_commutative(i / cols, cols);
    vstd::arithmetic::div_mod::lemma_div_pos_is_pos(i, cols);
    vstd::arithmetic::div_mod::lemma_mod_bound(i, cols);
    assert(i / cols < rows) by {
        vstd::arithmetic::div_mod::lemma_div_is_ordered(i, cols * rows - 1, cols);
        vstd::arithmetic::div_mod::lemma_div_multiples_vanish_fancy(rows - 1, cols - 1, cols);
        assert(cols * rows - 1 == (rows - 1) * cols + (cols - 1)) by (nonlinear_arith);
    }
}

impl Default for SixelDecoder {
    fn default() -> (r: Self)
        ensures
            r.wf(),
            r@ == initial_model(),
    {
        Self::new()
    }
}

} // verus!
