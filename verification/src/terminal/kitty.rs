//! Kitty graphics protocol: the control-data decoder that accumulates the
//! chunks of an APC `G` command and turns them into an image, an animation
//! frame, a compose command or an animation control command.
//!
//! Reading a payload from a file or shared memory is left to the caller:
//! [`KittyDecoder::finish_step`] says what has to be read, and
//! [`finish_with_data`] completes the command with the bytes read.

use vstd::prelude::*;
use vstd::utf8::*;

use crate::ascii::{
    find_byte, find_byte_at, parse_i32_at, parse_i32_or_zero, parse_or, parse_unsigned_at,
    split_bytes, split_ranges,
};
pub use crate::terminal::codec::base64_decode;
use crate::terminal::codec::b64_decode_lenient;
use crate::utils::color::is_valid_utf8;
use vstd::string::StringSliceAdditionalSpecFns;

verus! {

broadcast use vstd::string::group_string_axioms;

/// Maximum accumulated image data size (256MB).
pub const MAX_IMAGE_DATA_SIZE: usize = 268435456;

/// Animation frame
#[derive(Debug, Clone)]
pub struct KittyFrame {
    /// Frame ID (1 = root frame)
    pub id: u32,
    pub width: u32,
    pub height: u32,
    /// X offset within image
    pub x: u32,
    /// Y offset within image
    pub y: u32,
    /// Gap to next frame in milliseconds
    pub gap: u32,
    /// Frame data (RGBA)
    pub data: Vec<u8>,
    /// Base frame ID (for delta frames, 0 = none)
    pub base_frame_id: u32,
    /// Background color for composition
    pub bgcolor: u32,
    /// Alpha blend mode (false = overwrite)
    pub alpha_blend: bool,
}

/// Kitty graphics image
#[derive(Debug)]
pub struct KittyImage {
    pub id: u32,
    pub width: u32,
    pub height: u32,
    /// RGBA data of the root frame
    pub data: Vec<u8>,
    /// Do not move cursor after display (C=1)
    pub do_not_move_cursor: bool,
    /// Display columns (c=, 0 = from pixel size)
    pub display_cols: u32,
    /// Display rows (r=, 0 = from pixel size)
    pub display_rows: u32,
    pub z_index: i32,
    /// Source rectangle
    pub src_x: u32,
    pub src_y: u32,
    pub src_w: u32,
    pub src_h: u32,
    /// Unicode virtual placement (U=1)
    pub unicode_placement: bool,
    /// Placement ID (p)
    pub placement_id: u32,
}

/// Frame data of an a=f command
#[derive(Debug)]
pub struct KittyFrameData {
    pub image_id: u32,
    /// Frame number (1-based)
    pub frame_number: u32,
    pub width: u32,
    pub height: u32,
    pub x: u32,
    pub y: u32,
    /// Gap to next frame (ms)
    pub gap: u32,
    /// Frame data (RGBA)
    pub data: Vec<u8>,
    /// Base frame to copy from
    pub base_frame: u32,
    /// Compose mode (0=blend, 1=overwrite)
    pub compose_mode: u8,
    pub bgcolor: u32,
}

/// Compose command parameters (a=c)
#[derive(Debug)]
pub struct KittyComposeCmd {
    pub image_id: u32,
    pub src_frame: u32,
    pub dst_frame: u32,
    pub src_x: u32,
    pub src_y: u32,
    pub dst_x: u32,
    pub dst_y: u32,
    pub width: u32,
    pub height: u32,
    pub compose_mode: u8,
}

/// Animation control command (a=a)
#[derive(Debug)]
pub struct KittyAnimationCmd {
    pub image_id: u32,
    /// Frame number to modify (0 = none)
    pub frame_number: u32,
    /// Frame to display (0 = no change)
    pub current_frame: u32,
    /// Animation state (0=no change, 1=stop, 2=loading, 3=running)
    pub state: u8,
    /// Loop count (0 = no change)
    pub loop_count: u32,
    /// Gap for frame_number (negative = no change)
    pub gap: i32,
}

/// Result of decoding a Kitty command
#[derive(Debug)]
pub enum KittyDecodeResult {
    Image(KittyImage),
    Frame(KittyFrameData),
    Compose(KittyComposeCmd),
    Animation(KittyAnimationCmd),
}

/// Kitty command action (a=)
#[derive(Debug, Clone, Copy, PartialEq, Eq)]
pub enum KittyAction {
    Transmit,
    TransmitAndDisplay,
    Display,
    Delete,
    Query,
    Frame,
    Compose,
    Animation,
}

impl Default for KittyAction {
    fn default() -> (r: Self)
        ensures
            r == KittyAction::TransmitAndDisplay,
    {
        KittyAction::TransmitAndDisplay
    }
}

/// Image format (f=)
#[derive(Debug, Clone, Copy, PartialEq, Eq)]
pub enum KittyFormat {
    Rgb,
    Rgba,
    Png,
}

impl Default for KittyFormat {
    fn default() -> (r: Self)
        ensures
            r == KittyFormat::Rgba,
    {
        KittyFormat::Rgba
    }
}

/// Transmission medium (t=)
#[derive(Debug, Clone, Copy, PartialEq, Eq)]
pub enum KittyTransmission {
    Direct,
    File,
    SharedMemory,
    TempFile,
}

impl Default for KittyTransmission {
    fn default() -> (r: Self)
        ensures
            r == KittyTransmission::Direct,
    {
        KittyTransmission::Direct
    }
}

/// Kitty command parameters
#[derive(Debug, Clone, Copy)]
pub struct KittyParams {
    pub action: KittyAction,
    pub format: KittyFormat,
    pub transmission: KittyTransmission,
    /// Image ID (i)
    pub id: u32,
    /// Image number (I)
    pub number: u32,
    /// Width (s)
    pub width: u32,
    /// Height (v)
    pub height: u32,
    /// Chunk continuation flag (m)
    pub more: bool,
    /// Compression (o): z=zlib
    pub compression: Option<char>,
    /// Quiet mode (q)
    pub quiet: u8,
    /// Placement X (x)
    pub x: u32,
    /// Placement Y (y)
    pub y: u32,
    /// Cell width (c)
    pub cols: u32,
    /// Cell height (r)
    pub rows: u32,
    /// Z index (z)
    pub z_index: i32,
    /// Delete target (d)
    pub delete_target: Option<char>,
    /// Frame number (r)
    pub frame_number: u32,
    /// Other frame number (compose destination)
    pub other_frame_number: u32,
    /// Frame gap (z)
    pub gap: i32,
    /// Compose mode (C)
    pub compose_mode: u8,
    /// Animation state (s)
    pub animation_state: u8,
    /// Loop count (v)
    pub loop_count: u32,
    /// Base frame (c)
    pub base_frame: u32,
    /// Frame X offset (X)
    pub frame_x: u32,
    /// Frame Y offset (Y)
    pub frame_y: u32,
    /// Background color (Y)
    pub bgcolor: u32,
    /// Source rect width (w)
    pub src_w: u32,
    /// Source rect height (h)
    pub src_h: u32,
    /// Do not move cursor (C=1)
    pub do_not_move_cursor: bool,
    /// Unicode virtual placement (U=1)
    pub unicode_placement: bool,
    /// Placement ID (p)
    pub placement_id: u32,
    /// Parent image ID (P)
    pub parent_id: u32,
    /// Parent placement ID (Q)
    pub parent_placement_id: u32,
    /// Horizontal offset from parent (H)
    pub rel_h: i32,
    /// Vertical offset from parent (V)
    pub rel_v: i32,
}

/// The parameters before any key is given.
pub open spec fn default_params() -> KittyParams {
    KittyParams {
        action: KittyAction::TransmitAndDisplay,
        format: KittyFormat::Rgba,
        transmission: KittyTransmission::Direct,
        id: 0,
        number: 0,
        width: 0,
        height: 0,
        more: false,
        compression: None,
        quiet: 0,
        x: 0,
        y: 0,
        cols: 0,
        rows: 0,
        z_index: 0,
        delete_target: None,
        frame_number: 0,
        other_frame_number: 0,
        gap: 0,
        compose_mode: 0,
        animation_state: 0,
        loop_count: 0,
        base_frame: 0,
        frame_x: 0,
        frame_y: 0,
        bgcolor: 0,
        src_w: 0,
        src_h: 0,
        do_not_move_cursor: false,
        unicode_placement: false,
        placement_id: 0,
        parent_id: 0,
        parent_placement_id: 0,
        rel_h: 0,
        rel_v: 0,
    }
}

impl Default for KittyParams {
    fn default() -> (r: Self)
        ensures
            r == default_params(),
    {
        KittyParams {
            action: KittyAction::TransmitAndDisplay,
            format: KittyFormat::Rgba,
            transmission: KittyTransmission::Direct,
            id: 0,
            number: 0,
            width: 0,
            height: 0,
            more: false,
            compression: None,
            quiet: 0,
            x: 0,
            y: 0,
            cols: 0,
            rows: 0,
            z_index: 0,
            delete_target: None,
            frame_number: 0,
            other_frame_number: 0,
            gap: 0,
            compose_mode: 0,
            animation_state: 0,
            loop_count: 0,
            base_frame: 0,
            frame_x: 0,
            frame_y: 0,
            bgcolor: 0,
            src_w: 0,
            src_h: 0,
            do_not_move_cursor: false,
            unicode_placement: false,
            placement_id: 0,
            parent_id: 0,
            parent_placement_id: 0,
            rel_h: 0,
            rel_v: 0,
        }
    }
}

// ---------------------------------------------------------------------------
// Parameter decoding
// ---------------------------------------------------------------------------

/// `value.parse::<u32>().unwrap_or(0)`
pub open spec fn val_u32(v: Seq<u8>) -> u32 {
    parse_or(v, 0xffff_ffff, 0) as u32
}

/// `value.parse::<u8>().unwrap_or(0)`
pub open spec fn val_u8(v: Seq<u8>) -> u8 {
    parse_or(v, 0xff, 0) as u8
}

/// `value.parse::<i32>().unwrap_or(0)`
pub open spec fn val_i32(v: Seq<u8>) -> i32 {
    parse_i32_or_zero(v) as i32
}

/// A `char` for a scalar value.
pub open spec fn scalar_char(c: u32) -> Option<char> {
    if is_scalar(c) {
        Some(c as char)
    } else {
        None
    }
}

/// `value.chars().next()`: the first character of the UTF-8 bytes.
pub open spec fn first_char(v: Seq<u8>) -> Option<char> {
    if v.len() == 0 || !valid_first_scalar(v) {
        None
    } else {
        scalar_char(decode_first_scalar(v))
    }
}

pub open spec fn is1(v: Seq<u8>, c: u8) -> bool {
    v.len() == 1 && v[0] == c
}

pub open spec fn action_of(v: Seq<u8>) -> KittyAction {
    if is1(v, 0x74) {
        KittyAction::Transmit
    } else if is1(v, 0x54) {
        KittyAction::TransmitAndDisplay
    } else if is1(v, 0x70) {
        KittyAction::Display
    } else if is1(v, 0x64) {
        KittyAction::Delete
    } else if is1(v, 0x71) {
        KittyAction::Query
    } else if is1(v, 0x66) {
        KittyAction::Frame
    } else if is1(v, 0x63) {
        KittyAction::Compose
    } else if is1(v, 0x61) {
        KittyAction::Animation
    } else {
        KittyAction::TransmitAndDisplay
    }
}

pub open spec fn format_of(v: Seq<u8>) -> KittyFormat {
    if v == seq![0x32u8, 0x34u8] {
        KittyFormat::Rgb
    } else if v == seq![0x33u8, 0x32u8] {
        KittyFormat::Rgba
    } else if v == seq![0x31u8, 0x30u8, 0x30u8] {
        KittyFormat::Png
    } else {
        KittyFormat::Rgba
    }
}

pub open spec fn transmission_of(v: Seq<u8>) -> KittyTransmission {
    if is1(v, 0x64) {
        KittyTransmission::Direct
    } else if is1(v, 0x66) {
        KittyTransmission::File
    } else if is1(v, 0x73) {
        KittyTransmission::SharedMemory
    } else if is1(v, 0x74) {
        KittyTransmission::TempFile
    } else {
        KittyTransmission::Direct
    }
}

/// Effect of one `key=value` pair on the parameters.
pub open spec fn apply_param(p: KittyParams, key: Seq<u8>, v: Seq<u8>) -> KittyParams {
    if key.len() != 1 {
        p
    } else {
        let k = key[0];
        if k == 0x61 {
            KittyParams { action: action_of(v), ..p }
        } else if k == 0x66 {
            KittyParams { format: format_of(v), ..p }
        } else if k == 0x74 {
            KittyParams { transmission: transmission_of(v), ..p }
        } else if k == 0x69 {
            KittyParams { id: val_u32(v), ..p }
        } else if k == 0x49 {
            KittyParams { number: val_u32(v), ..p }
        } else if k == 0x73 {
            KittyParams { width: val_u32(v), animation_state: val_u32(v) as u8, ..p }
        } else if k == 0x76 {
            KittyParams { height: val_u32(v), loop_count: val_u32(v), ..p }
        } else if k == 0x77 {
            KittyParams { src_w: val_u32(v), ..p }
        } else if k == 0x68 {
            KittyParams { src_h: val_u32(v), ..p }
        } else if k == 0x6d {
            KittyParams { more: is1(v, 0x31), ..p }
        } else if k == 0x6f {
            KittyParams { compression: first_char(v), ..p }
        } else if k == 0x71 {
            KittyParams { quiet: val_u8(v), ..p }
        } else if k == 0x78 {
            KittyParams { x: val_u32(v), ..p }
        } else if k == 0x79 {
            KittyParams { y: val_u32(v), ..p }
        } else if k == 0x63 {
            KittyParams { cols: val_u32(v), ..p }
        } else if k == 0x72 {
            KittyParams { rows: val_u32(v), frame_number: val_u32(v), ..p }
        } else if k == 0x7a {
            KittyParams { z_index: val_i32(v), gap: val_i32(v), ..p }
        } else if k == 0x64 {
            KittyParams { delete_target: first_char(v), ..p }
        } else if k == 0x58 {
            KittyParams { frame_x: val_u32(v), ..p }
        } else if k == 0x59 {
            KittyParams { frame_y: val_u32(v), bgcolor: val_u32(v), ..p }
        } else if k == 0x43 {
            KittyParams { compose_mode: val_u8(v), do_not_move_cursor: val_u8(v) == 1, ..p }
        } else if k == 0x55 {
            KittyParams { unicode_placement: val_u8(v) == 1, ..p }
        } else if k == 0x70 {
            KittyParams { placement_id: val_u32(v), ..p }
        } else if k == 0x50 {
            KittyParams { parent_id: val_u32(v), ..p }
        } else if k == 0x51 {
            KittyParams { parent_placement_id: val_u32(v), ..p }
        } else if k == 0x48 {
            KittyParams { rel_h: val_i32(v), ..p }
        } else if k == 0x56 {
            KittyParams { rel_v: val_i32(v), ..p }
        } else {
            p
        }
    }
}

/// Effect of one comma-separated piece: a `key=value` pair (split at the first
/// `=`), or nothing when the piece has no `=`. With `only_more`, only the `m`
/// key is honoured (continuation chunks).
pub open spec fn apply_piece(p: KittyParams, piece: Seq<u8>, only_more: bool) -> KittyParams {
    match find_byte(piece, 0x3d) {
        Some(i) => {
            let key = piece.take(i);
            let v = piece.skip(i + 1);
            if only_more {
                if is1(key, 0x6d) {
                    KittyParams { more: is1(v, 0x31), ..p }
                } else {
                    p
                }
            } else {
                apply_param(p, key, v)
            }
        },
        None => p,
    }
}

/// The pieces applied one after the other.
pub open spec fn apply_pieces(p: KittyParams, pieces: Seq<Seq<u8>>, only_more: bool) -> KittyParams
    decreases pieces.len(),
{
    if pieces.len() == 0 {
        p
    } else {
        apply_piece(apply_pieces(p, pieces.drop_last(), only_more), pieces.last(), only_more)
    }
}

/// Effect of the control data of a chunk (`key=value,key=value,...`).
pub open spec fn apply_control(p: KittyParams, control: Seq<u8>, only_more: bool) -> KittyParams {
    apply_pieces(p, split_bytes(control, 0x2c), only_more)
}

/// `char::from_u32`: the `char` for a Unicode scalar value, `None` otherwise.
#[verifier::external_body]
fn char_from_u32(c: u32) -> (r: Option<char>)
    ensures
        r == scalar_char(c),
{
    char::from_u32(c)
}

/// First character of the UTF-8 bytes `b[start..end]`.
fn first_char_at(b: &[u8], start: usize, end: usize) -> (r: Option<char>)
    requires
        start <= end <= b.len(),
    ensures
        r == first_char(b@.subrange(start as int, end as int)),
{
    let ghost v = b@.subrange(start as int, end as int);
    let n = end - start;
    if n == 0 {
        return None;
    }
    let b0 = b[start];
    proof {
        assert(v[0] == b0);
    }
    if b0 <= 0x7f {
        let c = (b0 & 0x7f) as u32;
        return char_from_u32(c);
    }
    if n >= 2 && 0xc0 <= b0 && b0 <= 0xdf {
        let b1 = b[start + 1];
        proof {
            assert(v[1] == b1);
        }
        if !(0x80 <= b1 && b1 <= 0xbf) {
            return None;
        }
        let c = (((b0 & 0x1f) as u32) << 6) | ((b1 & 0x3f) as u32);
        if c < 0x80 || (0xd800 <= c && c <= 0xdfff) {
            return None;
        }
        return char_from_u32(c);
    }
    if n >= 3 && 0xe0 <= b0 && b0 <= 0xef {
        let b1 = b[start + 1];
        let b2 = b[start + 2];
        proof {
            assert(v[1] == b1 && v[2] == b2);
        }
        if !(0x80 <= b1 && b1 <= 0xbf && 0x80 <= b2 && b2 <= 0xbf) {
            return None;
        }
        let c = (((b0 & 0x0f) as u32) << 12) | (((b1 & 0x3f) as u32) << 6) | ((b2 & 0x3f) as u32);
        if c < 0x800 || (0xd800 <= c && c <= 0xdfff) {
            return None;
        }
        return char_from_u32(c);
    }
    if n >= 4 && 0xf0 <= b0 && b0 <= 0xf7 {
        let b1 = b[start + 1];
        let b2 = b[start + 2];
        let b3 = b[start + 3];
        proof {
            assert(v[1] == b1 && v[2] == b2 && v[3] == b3);
        }
        if !(0x80 <= b1 && b1 <= 0xbf && 0x80 <= b2 && b2 <= 0xbf && 0x80 <= b3 && b3 <= 0xbf) {
            return None;
        }
        let c = (((b0 & 0x07) as u32) << 18) | (((b1 & 0x3f) as u32) << 12) | (((b2 & 0x3f) as u32)
            << 6) | ((b3 & 0x3f) as u32);
        if c < 0x10000 || c > 0x10ffff || (0xd800 <= c && c <= 0xdfff) {
            return None;
        }
        return char_from_u32(c);
    }
    None
}

/// Whether `b[start..end]` is the single byte `c`.
fn is1_at(b: &[u8], start: usize, end: usize, c: u8) -> (r: bool)
    requires
        start <= end <= b.len(),
    ensures
        r == is1(b@.subrange(start as int, end as int), c),
{
    end - start == 1 && b[start] == c
}

fn val_u32_at(b: &[u8], start: usize, end: usize) -> (r: u32)
    requires
        start <= end <= b.len(),
    ensures
        r == val_u32(b@.subrange(start as int, end as int)),
{
    match parse_unsigned_at(b, start, end, false, 0xffff_ffff) {
        Some(v) => v as u32,
        None => 0,
    }
}

fn val_u8_at(b: &[u8], start: usize, end: usize) -> (r: u8)
    requires
        start <= end <= b.len(),
    ensures
        r == val_u8(b@.subrange(start as int, end as int)),
{
    match parse_unsigned_at(b, start, end, false, 0xff) {
        Some(v) => v as u8,
        None => 0,
    }
}

fn val_i32_at(b: &[u8], start: usize, end: usize) -> (r: i32)
    requires
        start <= end <= b.len(),
    ensures
        r == val_i32(b@.subrange(start as int, end as int)),
{
    match parse_i32_at(b, start, end) {
        Some(v) => v,
        None => 0,
    }
}

fn action_at(b: &[u8], s: usize, e: usize) -> (r: KittyAction)
    requires
        s <= e <= b.len(),
    ensures
        r == action_of(b@.subrange(s as int, e as int)),
{
    if is1_at(b, s, e, 0x74) {
        KittyAction::Transmit
    } else if is1_at(b, s, e, 0x54) {
        KittyAction::TransmitAndDisplay
    } else if is1_at(b, s, e, 0x70) {
        KittyAction::Display
    } else if is1_at(b, s, e, 0x64) {
        KittyAction::Delete
    } else if is1_at(b, s, e, 0x71) {
        KittyAction::Query
    } else if is1_at(b, s, e, 0x66) {
        KittyAction::Frame
    } else if is1_at(b, s, e, 0x63) {
        KittyAction::Compose
    } else if is1_at(b, s, e, 0x61) {
        KittyAction::Animation
    } else {
        KittyAction::TransmitAndDisplay
    }
}

fn format_at(b: &[u8], s: usize, e: usize) -> (r: KittyFormat)
    requires
        s <= e <= b.len(),
    ensures
        r == format_of(b@.subrange(s as int, e as int)),
{
    let ghost v = b@.subrange(s as int, e as int);
    let n = e - s;
    if n == 2 && b[s] == 0x32 && b[s + 1] == 0x34 {
        proof {
            assert(v =~= seq![0x32u8, 0x34u8]);
        }
        KittyFormat::Rgb
    } else if n == 2 && b[s] == 0x33 && b[s + 1] == 0x32 {
        proof {
            assert(v =~= seq![0x33u8, 0x32u8]);
            assert(v != seq![0x32u8, 0x34u8]);
        }
        KittyFormat::Rgba
    } else if n == 3 && b[s] == 0x31 && b[s + 1] == 0x30 && b[s + 2] == 0x30 {
        proof {
            assert(v =~= seq![0x31u8, 0x30u8, 0x30u8]);
        }
        KittyFormat::Png
    } else {
        proof {
            if v == seq![0x32u8, 0x34u8] {
                assert(v.len() == 2 && v[0] == 0x32u8 && v[1] == 0x34u8);
                assert(v[0] == b@[s as int] && v[1] == b@[s + 1]);
            }
            if v == seq![0x31u8, 0x30u8, 0x30u8] {
                assert(v.len() == 3 && v[0] == 0x31u8 && v[1] == 0x30u8 && v[2] == 0x30u8);
                assert(v[0] == b@[s as int] && v[1] == b@[s + 1] && v[2] == b@[s + 2]);
            }
        }
        KittyFormat::Rgba
    }
}

fn transmission_at(b: &[u8], s: usize, e: usize) -> (r: KittyTransmission)
    requires
        s <= e <= b.len(),
    ensures
        r == transmission_of(b@.subrange(s as int, e as int)),
{
    if is1_at(b, s, e, 0x64) {
        KittyTransmission::Direct
    } else if is1_at(b, s, e, 0x66) {
        KittyTransmission::File
    } else if is1_at(b, s, e, 0x73) {
        KittyTransmission::SharedMemory
    } else if is1_at(b, s, e, 0x74) {
        KittyTransmission::TempFile
    } else {
        KittyTransmission::Direct
    }
}

/// Applies `b[ks..ke]=b[vs..ve]` to the parameters.
fn apply_param_at(p: &mut KittyParams, b: &[u8], ks: usize, ke: usize, vs: usize, ve: usize)
    requires
        ks <= ke <= b.len(),
        vs <= ve <= b.len(),
    ensures
        *final(p) == apply_param(
            *old(p),
            b@.subrange(ks as int, ke as int),
            b@.subrange(vs as int, ve as int),
        ),
{
    if ke - ks != 1 {
        return;
    }
    let k = b[ks];
    proof {
        assert(b@.subrange(ks as int, ke as int)[0] == k);
    }
    if k == 0x61 {
        p.action = action_at(b, vs, ve);
    } else if k == 0x66 {
        p.format = format_at(b, vs, ve);
    } else if k == 0x74 {
        p.transmission = transmission_at(b, vs, ve);
    } else if k == 0x69 {
        p.id = val_u32_at(b, vs, ve);
    } else if k == 0x49 {
        p.number = val_u32_at(b, vs, ve);
    } else if k == 0x73 {
        let v = val_u32_at(b, vs, ve);
        p.width = v;
        p.animation_state = v as u8;
    } else if k == 0x76 {
        let v = val_u32_at(b, vs, ve);
        p.height = v;
        p.loop_count = v;
    } else if k == 0x77 {
        p.src_w = val_u32_at(b, vs, ve);
    } else if k == 0x68 {
        p.src_h = val_u32_at(b, vs, ve);
    } else if k == 0x6d {
        p.more = is1_at(b, vs, ve, 0x31);
    } else if k == 0x6f {
        p.compression = first_char_at(b, vs, ve);
    } else if k == 0x71 {
        p.quiet = val_u8_at(b, vs, ve);
    } else if k == 0x78 {
        p.x = val_u32_at(b, vs, ve);
    } else if k == 0x79 {
        p.y = val_u32_at(b, vs, ve);
    } else if k == 0x63 {
        p.cols = val_u32_at(b, vs, ve);
    } else if k == 0x72 {
        let v = val_u32_at(b, vs, ve);
        p.rows = v;
        p.frame_number = v;
    } else if k == 0x7a {
        let v = val_i32_at(b, vs, ve);
        p.z_index = v;
        p.gap = v;
    } else if k == 0x64 {
        p.delete_target = first_char_at(b, vs, ve);
    } else if k == 0x58 {
        p.frame_x = val_u32_at(b, vs, ve);
    } else if k == 0x59 {
        let v = val_u32_at(b, vs, ve);
        p.frame_y = v;
        p.bgcolor = v;
    } else if k == 0x43 {
        let v = val_u8_at(b, vs, ve);
        p.compose_mode = v;
        p.do_not_move_cursor = v == 1;
    } else if k == 0x55 {
        let v = val_u8_at(b, vs, ve);
        p.unicode_placement = v == 1;
    } else if k == 0x70 {
        p.placement_id = val_u32_at(b, vs, ve);
    } else if k == 0x50 {
        p.parent_id = val_u32_at(b, vs, ve);
    } else if k == 0x51 {
        p.parent_placement_id = val_u32_at(b, vs, ve);
    } else if k == 0x48 {
        p.rel_h = val_i32_at(b, vs, ve);
    } else if k == 0x56 {
        p.rel_v = val_i32_at(b, vs, ve);
    }
}

/// Applies the control data `b[start..end]` to the parameters.
fn apply_control_at(p: &mut KittyParams, b: &[u8], start: usize, end: usize, only_more: bool)
    requires
        start <= end <= b.len(),
    ensures
        *final(p) == apply_control(*old(p), b@.subrange(start as int, end as int), only_more),
{
    let ghost p0 = *p;
    let ghost pieces = split_bytes(b@.subrange(start as int, end as int), 0x2c);
    let ranges = split_ranges(b, start, end, 0x2c);
    let mut k: usize = 0;
    proof {
        assert(pieces.take(0) =~= Seq::<Seq<u8>>::empty());
    }
    while k < ranges.len()
        invariant
            0 <= k <= ranges@.len(),
            ranges@.len() == pieces.len(),
            start <= end <= b.len(),
            pieces == split_bytes(b@.subrange(start as int, end as int), 0x2c),
            forall|j: int|
                0 <= j < ranges@.len() ==> {
                    &&& start <= (#[trigger] ranges@[j]).0 <= ranges@[j].1 <= end
                    &&& b@.subrange(ranges@[j].0 as int, ranges@[j].1 as int) == pieces[j]
                },
            *p == apply_pieces(p0, pieces.take(k as int), only_more),
        decreases ranges@.len() - k,
    {
        let (ps, pe) = ranges[k];
        let ghost piece = b@.subrange(ps as int, pe as int);
        proof {
            assert(pieces.take(k + 1).drop_last() =~= pieces.take(k as int));
            assert(pieces.take(k + 1).last() == piece);
        }
        match find_byte_at(b, ps, pe, 0x3d) {
            Some(i) => {
                proof {
                    assert(piece.take(i as int) =~= b@.subrange(ps as int, ps + i));
                    assert(piece.skip(i + 1) =~= b@.subrange(ps + i + 1, pe as int));
                }
                if only_more {
                    if is1_at(b, ps, ps + i, 0x6d) {
                        p.more = is1_at(b, ps + i + 1, pe, 0x31);
                    }
                } else {
                    apply_param_at(p, b, ps, ps + i, ps + i + 1, pe);
                }
            },
            None => {},
        }
        k = k + 1;
    }
    proof {
        assert(pieces.take(ranges@.len() as int) =~= pieces);
    }
}

// ---------------------------------------------------------------------------
// Chunk accumulation
// ---------------------------------------------------------------------------

/// The control data of an APC body: everything before the first `;`.
pub open spec fn control_part(d: Seq<u8>) -> Seq<u8> {
    match find_byte(d, 0x3b) {
        Some(i) => d.take(i),
        None => d,
    }
}

/// The payload of an APC body: everything after the first `;`.
pub open spec fn payload_part(d: Seq<u8>) -> Seq<u8> {
    match find_byte(d, 0x3b) {
        Some(i) => d.skip(i + 1),
        None => Seq::empty(),
    }
}

/// The accumulated payload after one more chunk: the chunk's base64 payload is
/// decoded on its own and appended, unless that would exceed the size limit.
pub open spec fn accumulate(buffer: Seq<u8>, payload: Seq<u8>) -> Seq<u8> {
    let decoded = b64_decode_lenient(payload);
    if payload.len() > 0 && buffer.len() + decoded.len() <= MAX_IMAGE_DATA_SIZE {
        buffer + decoded
    } else {
        buffer
    }
}

/// Kitty decoder: accumulates the chunks of one command.
pub struct KittyDecoder {
    /// Accumulated decoded payload bytes (each chunk is decoded on arrival).
    payload_buffer: Vec<u8>,
    /// Current parameters
    params: KittyParams,
    /// Whether the next chunk is the first one
    first_chunk: bool,
}

impl KittyDecoder {
    /// The decoded payload accumulated so far.
    pub closed spec fn buffered(&self) -> Seq<u8> {
        self.payload_buffer@
    }

    /// The parameters decoded so far.
    pub closed spec fn spec_params(&self) -> KittyParams {
        self.params
    }

    /// Whether no chunk has been processed yet.
    pub closed spec fn awaits_first_chunk(&self) -> bool {
        self.first_chunk
    }

    pub fn new() -> (r: Self)
        ensures
            r.buffered() == Seq::<u8>::empty(),
            r.spec_params() == default_params(),
            r.awaits_first_chunk(),
    {
        KittyDecoder { payload_buffer: Vec::new(), params: KittyParams::default(), first_chunk: true }
    }

    /// Processes the body of one APC `G` chunk (`control;payload`).
    /// Returns whether the command is complete (no response is produced here).
    /// The first chunk sets all parameters; later chunks only update `m`.
    pub fn process(&mut self, data: &[u8]) -> (r: (bool, Option<Vec<u8>>))
        ensures
            !valid_utf8(data@) ==> r == (true, None::<Vec<u8>>) && final(self).buffered() == old(
                self,
            ).buffered() && final(self).spec_params() == old(self).spec_params()
                && final(self).awaits_first_chunk() == old(self).awaits_first_chunk(),
            valid_utf8(data@) ==> {
                &&& final(self).spec_params() == apply_control(
                    old(self).spec_params(),
                    control_part(data@),
                    !old(self).awaits_first_chunk(),
                )
                &&& !final(self).awaits_first_chunk()
                &&& final(self).buffered() == accumulate(old(self).buffered(), payload_part(data@))
                &&& r.0 == !final(self).spec_params().more
                &&& r.1 is None
            },
    {
        if !is_valid_utf8(data) {
            return (true, None);
        }
        let (cs, ce, ps, pe) = match find_byte_at(data, 0, data.len(), 0x3b) {
            Some(pos) => (0, pos, pos + 1, data.len()),
            None => (0, data.len(), data.len(), data.len()),
        };
        proof {
            assert(data@.subrange(0, data@.len() as int) =~= data@);
            assert(control_part(data@) =~= data@.subrange(cs as int, ce as int));
            assert(payload_part(data@) =~= data@.subrange(ps as int, pe as int));
        }
        if self.first_chunk {
            apply_control_at(&mut self.params, data, cs, ce, false);
            self.first_chunk = false;
        } else {
            apply_control_at(&mut self.params, data, cs, ce, true);
        }
        if pe > ps {
            let payload = slice_range(data, ps, pe);
            let decoded = match base64_decode(payload.as_slice()) {
                Some(d) => d,
                None => Vec::new(),
            };
            if self.payload_buffer.len() <= MAX_IMAGE_DATA_SIZE && decoded.len()
                <= MAX_IMAGE_DATA_SIZE - self.payload_buffer.len() {
                append_bytes(&mut self.payload_buffer, &decoded);
            }
        }
        if self.params.more {
            return (false, None);
        }
        (true, None)
    }

    /// The parameters decoded so far.
    pub fn params(&self) -> (r: &KittyParams)
        ensures
            *r == self.spec_params(),
    {
        &self.params
    }
}

/// Copy of `b[start..end]`.
pub(crate) fn slice_range(b: &[u8], start: usize, end: usize) -> (r: Vec<u8>)
    requires
        start <= end <= b.len(),
    ensures
        r@ == b@.subrange(start as int, end as int),
{
    let mut r: Vec<u8> = Vec::new();
    let mut i = start;
    while i < end
        invariant
            start <= i <= end <= b.len(),
            r@ == b@.subrange(start as int, i as int),
        decreases end - i,
    {
        r.push(b[i]);
        proof {
            assert(b@.subrange(start as int, i + 1) =~= b@.subrange(start as int, i as int).push(
                b@[i as int],
            ));
        }
        i = i + 1;
    }
    r
}

/// Appends `src` to `dst`.
pub(crate) fn append_bytes(dst: &mut Vec<u8>, src: &Vec<u8>)
    ensures
        final(dst)@ == old(dst)@ + src@,
{
    let mut i: usize = 0;
    let ghost d0 = dst@;
    while i < src.len()
        invariant
            0 <= i <= src.len(),
            dst@ == d0 + src@.subrange(0, i as int),
        decreases src.len() - i,
    {
        dst.push(src[i]);
        proof {
            assert(src@.subrange(0, i + 1) =~= src@.subrange(0, i as int).push(src@[i as int]));
            assert(d0 + src@.subrange(0, i + 1) =~= (d0 + src@.subrange(0, i as int)).push(
                src@[i as int],
            ));
        }
        i = i + 1;
    }
    proof {
        assert(src@.subrange(0, src@.len() as int) =~= src@);
    }
}


// ---------------------------------------------------------------------------
// Completion
// ---------------------------------------------------------------------------

/// Where the payload of a data-carrying command comes from once the
/// transmission medium has been checked: the payload itself, or a path / shared
/// memory name (UTF-8 bytes, not yet trimmed) that the caller has to read.
pub enum KittyLoad {
    Data(Vec<u8>),
    File(Vec<u8>),
    TempFile(Vec<u8>),
    SharedMemory(Vec<u8>),
}

/// A data-carrying command whose payload the caller has to read (a file,
/// a temporary file or shared memory) before it completes: its parameters,
/// its image id and what to read.
pub struct KittyPendingLoad {
    pub params: KittyParams,
    pub id: u32,
    pub request: KittyLoad,
}

/// Outcome of [`KittyDecoder::finish_step`].
pub enum KittyFinish {
    /// The command is complete.
    Done(Result<KittyDecodeResult, String>),
    /// The payload has to be read by the caller, then passed to
    /// [`finish_loaded`] with these parameters and image id.
    Load { params: KittyParams, id: u32, request: KittyLoad },
}

pub open spec fn msg_file_disabled() -> Seq<char> {
    "remote file transfer (t=f) disabled. Set [security] allow_kitty_remote = true in config to enable."@
}

pub open spec fn msg_temp_disabled() -> Seq<char> {
    "remote temp file transfer (t=t) disabled. Set [security] allow_kitty_remote = true in config to enable."@
}

pub open spec fn msg_shm_disabled() -> Seq<char> {
    "shared memory transfer (t=s) disabled. Set [security] allow_kitty_remote = true in config to enable."@
}

/// The error a transmission medium gives for the accumulated payload `raw`:
/// remote media are refused unless allowed, and their path or name must be UTF-8.
pub open spec fn load_error(t: KittyTransmission, raw: Seq<u8>, allow_remote: bool) -> Option<
    Seq<char>,
> {
    match t {
        KittyTransmission::Direct => None,
        KittyTransmission::File => if !allow_remote {
            Some(msg_file_disabled())
        } else if !valid_utf8(raw) {
            Some("invalid file path encoding"@)
        } else {
            None
        },
        KittyTransmission::TempFile => if !allow_remote {
            Some(msg_temp_disabled())
        } else if !valid_utf8(raw) {
            Some("invalid temp file path encoding"@)
        } else {
            None
        },
        KittyTransmission::SharedMemory => if !allow_remote {
            Some(msg_shm_disabled())
        } else if !valid_utf8(raw) {
            Some("invalid shm name encoding"@)
        } else {
            None
        },
    }
}

/// What a transmission medium yields for the accumulated payload `raw`.
pub open spec fn load_outcome(t: KittyTransmission, raw: Seq<u8>, allow_remote: bool, r: Result<
    KittyLoad,
    String,
>) -> bool {
    match load_error(t, raw, allow_remote) {
        Some(m) => r matches Err(e) && e@ == m,
        None => match t {
            KittyTransmission::Direct => r matches Ok(KittyLoad::Data(d)) && d@ == raw,
            KittyTransmission::File => r matches Ok(KittyLoad::File(d)) && d@ == raw,
            KittyTransmission::TempFile => r matches Ok(KittyLoad::TempFile(d)) && d@ == raw,
            KittyTransmission::SharedMemory => r matches Ok(KittyLoad::SharedMemory(d)) && d@ == raw,
        },
    }
}

/// Checks the transmission medium: direct payloads are used as they are;
/// file, temp-file and shared-memory transfers are refused unless
/// `allow_remote`, and otherwise name what has to be read.
pub fn load_data_from_transmission(
    transmission: KittyTransmission,
    raw_data: Vec<u8>,
    allow_remote: bool,
) -> (r: Result<KittyLoad, String>)
    ensures
        load_outcome(transmission, raw_data@, allow_remote, r),
{
    match transmission {
        KittyTransmission::Direct => Ok(KittyLoad::Data(raw_data)),
        KittyTransmission::File => {
            if !allow_remote {
                return Err(
                    "remote file transfer (t=f) disabled. Set [security] allow_kitty_remote = true in config to enable.".to_string(),
                );
            }
            if !is_valid_utf8(raw_data.as_slice()) {
                return Err("invalid file path encoding".to_string());
            }
            Ok(KittyLoad::File(raw_data))
        },
        KittyTransmission::TempFile => {
            if !allow_remote {
                return Err(
                    "remote temp file transfer (t=t) disabled. Set [security] allow_kitty_remote = true in config to enable.".to_string(),
                );
            }
            if !is_valid_utf8(raw_data.as_slice()) {
                return Err("invalid temp file path encoding".to_string());
            }
            Ok(KittyLoad::TempFile(raw_data))
        },
        KittyTransmission::SharedMemory => {
            if !allow_remote {
                return Err(
                    "shared memory transfer (t=s) disabled. Set [security] allow_kitty_remote = true in config to enable.".to_string(),
                );
            }
            if !is_valid_utf8(raw_data.as_slice()) {
                return Err("invalid shm name encoding".to_string());
            }
            Ok(KittyLoad::SharedMemory(raw_data))
        },
    }
}

/// RGB bytes widened to RGBA: whole pixels of the usable data (at most
/// `w*h*3` bytes) get alpha 255, the rest up to `w*h*4` bytes is zero.
pub open spec fn rgb_widened(data: Seq<u8>, w: nat, h: nat) -> Seq<u8> {
    let usable = if data.len() < w * h * 3 { data.len() } else { w * h * 3 };
    let pixels = usable / 3;
    Seq::new(
        w * h * 4,
        |i: int|
            if i < pixels * 4 {
                if i % 4 == 3 {
                    255u8
                } else {
                    data[(i / 4) * 3 + i % 4]
                }
            } else {
                0u8
            },
    )
}

/// `data` cut or zero-padded to `n` bytes.
pub open spec fn fit_len(data: Seq<u8>, n: nat) -> Seq<u8> {
    Seq::new(n, |i: int| if i < data.len() { data[i] } else { 0u8 })
}

/// Decoding of raw (non-PNG) pixel data by format and declared size.
pub open spec fn raw_decoded(format: KittyFormat, w: u32, h: u32, data: Seq<u8>) -> Result<
    (u32, u32, Seq<u8>),
    Seq<char>,
> {
    match format {
        KittyFormat::Rgb => if w == 0 || h == 0 {
            Err("missing width/height for RGB"@)
        } else if w * h * 3 > usize::MAX {
            Err("RGB dimensions too large"@)
        } else {
            Ok((w, h, rgb_widened(data, w as nat, h as nat)))
        },
        _ => if w == 0 || h == 0 {
            Err("missing width/height for RGBA"@)
        } else if w * h * 4 > usize::MAX {
            Err("RGBA dimensions too large"@)
        } else {
            Ok((w, h, fit_len(data, (w * h * 4) as nat)))
        },
    }
}

/// Padding RGB data to `w*h*4` bytes would overflow the address space.
pub open spec fn rgb_padding_overflows(w: u32, h: u32) -> bool {
    w * h * 3 <= usize::MAX && w * h * 4 > usize::MAX
}

/// Convert RGB to RGBA (short data is tolerated and zero-padded).
pub fn rgb_to_rgba(data: &[u8], width: u32, height: u32) -> (r: Result<Vec<u8>, String>)
    requires
        !rgb_padding_overflows(width, height),
    ensures
        width * height * 3 > usize::MAX ==> (r matches Err(e) && e@ == "RGB dimensions too large"@),
        width * height * 3 <= usize::MAX ==> (r matches Ok(v) && v@ == rgb_widened(
            data@,
            width as nat,
            height as nat,
        )),
{
    let wh = match (width as usize).checked_mul(height as usize) {
        Some(v) => v,
        None => {
            proof {
                assert(width * height * 3 > usize::MAX) by (nonlinear_arith)
                    requires
                        width * height > usize::MAX,
                ;
            }
            return Err("RGB dimensions too large".to_string());
        },
    };
    let expected = match wh.checked_mul(3) {
        Some(v) => v,
        None => {
            return Err("RGB dimensions too large".to_string());
        },
    };
    let usable = if data.len() < expected {
        data.len()
    } else {
        expected
    };
    let pixel_count = usable / 3;
    let total = wh * 4;
    let ghost target = rgb_widened(data@, width as nat, height as nat);
    let mut rgba: Vec<u8> = Vec::new();
    let mut k: usize = 0;
    while k < pixel_count
        invariant
            0 <= k <= pixel_count,
            pixel_count == usable / 3,
            usable <= data.len(),
            usable <= expected,
            expected == wh * 3,
            total == wh * 4,
            wh == width * height,
            target == rgb_widened(data@, width as nat, height as nat),
            usable == (if data.len() < width * height * 3 {
                data.len() as int
            } else {
                width * height * 3
            }),
            rgba@.len() == 4 * k,
            forall|i: int| 0 <= i < 4 * k ==> rgba@[i] == target[i],
        decreases pixel_count - k,
    {
        let ghost before = rgba@;
        rgba.push(data[3 * k]);
        rgba.push(data[3 * k + 1]);
        rgba.push(data[3 * k + 2]);
        rgba.push(255);
        proof {
            assert forall|i: int| 0 <= i < 4 * (k + 1) implies rgba@[i] == target[i] by {
                if i >= 4 * k {
                    assert(i / 4 == k);
                    assert(i % 4 == i - 4 * k);
                }
            }
        }
        k = k + 1;
    }
    let mut i: usize = 4 * pixel_count;
    while i < total
        invariant
            4 * pixel_count <= i <= total,
            pixel_count == usable / 3,
            usable <= expected,
            expected == wh * 3,
            total == wh * 4,
            wh == width * height,
            target == rgb_widened(data@, width as nat, height as nat),
            usable == (if data.len() < width * height * 3 {
                data.len() as int
            } else {
                width * height * 3
            }),
            rgba@.len() == i,
            forall|j: int| 0 <= j < i ==> rgba@[j] == target[j],
        decreases total - i,
    {
        rgba.push(0);
        i = i + 1;
    }
    proof {
        assert(rgba@ =~= target);
    }
    Ok(rgba)
}

/// Decode raw pixel data according to format (PNG is handled separately).
fn decode_image_data(format: KittyFormat, width: u32, height: u32, data: Vec<u8>) -> (r: Result<
    (u32, u32, Vec<u8>),
    String,
>)
    requires
        format != KittyFormat::Png,
        format == KittyFormat::Rgb ==> !rgb_padding_overflows(width, height),
    ensures
        match (r, raw_decoded(format, width, height, data@)) {
            (Ok((w, h, d)), Ok((w2, h2, d2))) => w == w2 && h == h2 && d@ == d2,
            (Err(e), Err(e2)) => e@ == e2,
            _ => false,
        },
{
    match format {
        KittyFormat::Rgb => {
            if width == 0 || height == 0 {
                return Err("missing width/height for RGB".to_string());
            }
            let rgba = rgb_to_rgba(data.as_slice(), width, height)?;
            Ok((width, height, rgba))
        },
        _ => {
            if width == 0 || height == 0 {
                return Err("missing width/height for RGBA".to_string());
            }
            let wh = match (width as usize).checked_mul(height as usize) {
                Some(v) => v,
                None => {
                    proof {
                        assert(width * height * 4 > usize::MAX) by (nonlinear_arith)
                            requires
                                width * height > usize::MAX,
                        ;
                    }
                    return Err("RGBA dimensions too large".to_string());
                },
            };
            let expected = match wh.checked_mul(4) {
                Some(v) => v,
                None => {
                    return Err("RGBA dimensions too large".to_string());
                },
            };
            let mut data = data;
            let ghost d0 = data@;
            if data.len() != expected {
                data.resize(expected, 0);
            }
            proof {
                assert(data@ =~= fit_len(d0, expected as nat));
            }
            Ok((width, height, data))
        },
    }
}

/// The result of completing a command whose (decompressed) payload is `data`,
/// for the non-PNG formats.
pub open spec fn completed(params: KittyParams, id: u32, data: Seq<u8>, r: Result<
    KittyDecodeResult,
    String,
>) -> bool {
    match raw_decoded(params.format, params.width, params.height, data) {
        Err(msg) => r matches Err(e) && e@ == msg,
        Ok((w, h, rgba)) => built(params, id, w, h, rgba, r),
    }
}

/// The result carrying the decoded image `w` x `h` with pixels `rgba`: a
/// frame for the frame action, an image otherwise.
pub open spec fn built(params: KittyParams, id: u32, w: u32, h: u32, rgba: Seq<u8>, r: Result<
    KittyDecodeResult,
    String,
>) -> bool {
    if params.action == KittyAction::Frame {
        r matches Ok(KittyDecodeResult::Frame(f)) && frame_fields(f, params, id) && f.width == w
            && f.height == h && f.data@ == rgba
    } else {
        r matches Ok(KittyDecodeResult::Image(img)) && image_fields(img, params, id) && img.width
            == w && img.height == h && img.data@ == rgba
    }
}

/// The result of completing a command whose payload, after decompression,
/// is `data`: PNG data goes through the image decoder (chunk checksums
/// repaired first), the other formats are decoded as raw pixels.
pub open spec fn decoded_outcome(params: KittyParams, id: u32, data: Seq<u8>, r: Result<
    KittyDecodeResult,
    String,
>) -> bool {
    if params.format == KittyFormat::Png {
        match image_rgba8_of(crc_fixed(data)) {
            Some((w, h, rgba)) => if rgba.len() <= MAX_IMAGE_DATA_SIZE {
                built(params, id, w, h, rgba, r)
            } else {
                r matches Err(e) && e@ == png_too_large_message(w, h, rgba.len())
            },
            None => r is Err,
        }
    } else {
        completed(params, id, data, r)
    }
}

/// The result of completing a data-carrying command whose payload is
/// `data`: under `o=z` the payload is inflated first (at most
/// `MAX_IMAGE_DATA_SIZE` bytes), then decoded.
pub open spec fn data_outcome(params: KittyParams, id: u32, data: Seq<u8>, r: Result<
    KittyDecodeResult,
    String,
>) -> bool {
    if is_zlib(params) {
        match zlib_read_capped(data, (MAX_IMAGE_DATA_SIZE + 1) as u64) {
            Some(v) => if v.len() <= MAX_IMAGE_DATA_SIZE {
                decoded_outcome(params, id, v, r)
            } else {
                r matches Err(e) && e@ == "decompressed data too large (max 268435456 bytes)"@
            },
            None => r is Err,
        }
    } else {
        decoded_outcome(params, id, data, r)
    }
}

/// The fields of a frame result taken from the parameters.
pub open spec fn frame_fields(f: KittyFrameData, params: KittyParams, id: u32) -> bool {
    &&& f.image_id == id
    &&& f.frame_number == params.frame_number
    &&& f.x == params.frame_x
    &&& f.y == params.frame_y
    &&& f.gap == (if params.gap > 0 {
        params.gap as u32
    } else {
        40u32
    })
    &&& f.base_frame == params.base_frame
    &&& f.compose_mode == params.compose_mode
    &&& f.bgcolor == params.bgcolor
}

/// The fields of an image result taken from the parameters.
pub open spec fn image_fields(img: KittyImage, params: KittyParams, id: u32) -> bool {
    &&& img.id == id
    &&& img.do_not_move_cursor == params.do_not_move_cursor
    &&& img.display_cols == params.cols
    &&& img.display_rows == params.rows
    &&& img.z_index == params.z_index
    &&& img.src_x == params.x
    &&& img.src_y == params.y
    &&& img.src_w == params.src_w
    &&& img.src_h == params.src_h
    &&& img.unicode_placement == params.unicode_placement
    &&& img.placement_id == params.placement_id
}

/// Whether the payload is zlib-compressed (`o=z`).
pub open spec fn is_zlib(params: KittyParams) -> bool {
    params.compression == Some('z')
}

/// Completes a data-carrying command (transmit, display, query, frame) whose
/// payload is `data`: decompresses it if `o=z`, then decodes it by format.
pub fn finish_with_data(params: &KittyParams, id: u32, data: Vec<u8>) -> (r: Result<
    KittyDecodeResult,
    String,
>)
    requires
        params.format == KittyFormat::Rgb ==> !rgb_padding_overflows(params.width, params.height),
    ensures
        data_outcome(*params, id, data@, r),
        r matches Ok(res) ==> (res matches KittyDecodeResult::Frame(f) && params.action
            == KittyAction::Frame && frame_fields(f, *params, id)) || (res matches KittyDecodeResult::Image(
            img,
        ) && params.action != KittyAction::Frame && image_fields(img, *params, id)),
{
    let mut data = data;
    let is_z = match params.compression {
        Some(c) => c == 'z',
        None => false,
    };
    if is_z {
        data = match decompress_zlib(data.as_slice()) {
            Ok(v) => v,
            Err(e) => {
                return Err(e);
            },
        };
    }
    let decoded = match params.format {
        KittyFormat::Png => decode_png(data.as_slice()),
        _ => decode_image_data(params.format, params.width, params.height, data),
    };
    let (width, height, rgba) = match decoded {
        Ok(t) => t,
        Err(e) => {
            return Err(e);
        },
    };
    match params.action {
        KittyAction::Frame => Ok(
            KittyDecodeResult::Frame(
                KittyFrameData {
                    image_id: id,
                    frame_number: params.frame_number,
                    width,
                    height,
                    x: params.frame_x,
                    y: params.frame_y,
                    gap: if params.gap > 0 {
                        params.gap as u32
                    } else {
                        40
                    },
                    data: rgba,
                    base_frame: params.base_frame,
                    compose_mode: params.compose_mode,
                    bgcolor: params.bgcolor,
                },
            ),
        ),
        _ => Ok(
            KittyDecodeResult::Image(
                KittyImage {
                    id,
                    width,
                    height,
                    data: rgba,
                    do_not_move_cursor: params.do_not_move_cursor,
                    display_cols: params.cols,
                    display_rows: params.rows,
                    z_index: params.z_index,
                    src_x: params.x,
                    src_y: params.y,
                    src_w: params.src_w,
                    src_h: params.src_h,
                    unicode_placement: params.unicode_placement,
                    placement_id: params.placement_id,
                },
            ),
        ),
    }
}

/// Image id used for a command: its `i=` key, or the next free id.
pub open spec fn command_id(params: KittyParams, next_id: u32) -> u32 {
    if params.id != 0 {
        params.id
    } else {
        next_id
    }
}

/// The result of the commands that carry no data, if `params` is one.
pub open spec fn dataless_outcome(params: KittyParams, id: u32, r: Result<KittyDecodeResult, String>) -> bool {
    match params.action {
        KittyAction::Delete => r matches Err(e) && e@ == "delete action"@,
        KittyAction::Compose => r matches Ok(KittyDecodeResult::Compose(c)) && c.image_id == id
            && c.src_frame == params.frame_number && c.dst_frame == params.other_frame_number
            && c.src_x == params.frame_x && c.src_y == params.frame_y && c.dst_x == params.x
            && c.dst_y == params.y && c.width == params.width && c.height == params.height
            && c.compose_mode == params.compose_mode,
        KittyAction::Animation => r matches Ok(KittyDecodeResult::Animation(a)) && a.image_id == id
            && a.frame_number == params.frame_number && a.current_frame == params.other_frame_number
            && a.state == params.animation_state && a.loop_count == params.loop_count && a.gap
            == params.gap,
        _ => false,
    }
}

pub open spec fn is_dataless(a: KittyAction) -> bool {
    a == KittyAction::Delete || a == KittyAction::Compose || a == KittyAction::Animation
}

/// What completing a command with parameters `p` and accumulated payload
/// `raw` may give: dataless commands and uncompressed raw pixel data are
/// decoded exactly; payloads to be read from outside the terminal core
/// are refused.
pub open spec fn finish_outcome(
    p: KittyParams,
    raw: Seq<u8>,
    next_id: u32,
    allow_remote: bool,
    r: Result<KittyDecodeResult, String>,
) -> bool {
    let id = command_id(p, next_id);
    if is_dataless(p.action) {
        dataless_outcome(p, id, r)
    } else if p.transmission == KittyTransmission::Direct {
        data_outcome(p, id, raw, r)
    } else if !allow_remote {
        r matches Err(e) && load_error(p.transmission, raw, allow_remote) == Some(e@)
    } else {
        r is Err
    }
}

impl KittyDecoder {
    /// Completes the command as far as no outside read is needed.
    pub fn finish_step(self, next_id: u32, allow_remote: bool) -> (r: KittyFinish)
        requires
            self.spec_params().format == KittyFormat::Rgb ==> !rgb_padding_overflows(
                self.spec_params().width,
                self.spec_params().height,
            ),
        ensures
            ({
                let p = self.spec_params();
                let id = command_id(p, next_id);
                if is_dataless(p.action) {
                    r matches KittyFinish::Done(res) && dataless_outcome(p, id, res)
                } else if p.transmission == KittyTransmission::Direct {
                    r matches KittyFinish::Done(res) && data_outcome(p, id, self.buffered(), res)
                } else {
                    match r {
                        KittyFinish::Done(res) => res matches Err(e) && load_error(
                            p.transmission,
                            self.buffered(),
                            allow_remote,
                        ) == Some(e@),
                        KittyFinish::Load { params, id: rid, request } => params == p && rid == id
                            && load_outcome(p.transmission, self.buffered(), allow_remote, Ok(request)),
                    }
                }
            }),
    {
        let params = self.params;
        let id = if params.id != 0 {
            params.id
        } else {
            next_id
        };
        let raw_data = self.payload_buffer;
        match params.action {
            KittyAction::Delete => {
                return KittyFinish::Done(Err("delete action".to_string()));
            },
            KittyAction::Compose => {
                return KittyFinish::Done(
                    Ok(
                        KittyDecodeResult::Compose(
                            KittyComposeCmd {
                                image_id: id,
                                src_frame: params.frame_number,
                                dst_frame: params.other_frame_number,
                                src_x: params.frame_x,
                                src_y: params.frame_y,
                                dst_x: params.x,
                                dst_y: params.y,
                                width: params.width,
                                height: params.height,
                                compose_mode: params.compose_mode,
                            },
                        ),
                    ),
                );
            },
            KittyAction::Animation => {
                return KittyFinish::Done(
                    Ok(
                        KittyDecodeResult::Animation(
                            KittyAnimationCmd {
                                image_id: id,
                                frame_number: params.frame_number,
                                current_frame: params.other_frame_number,
                                state: params.animation_state,
                                loop_count: params.loop_count,
                                gap: params.gap,
                            },
                        ),
                    ),
                );
            },
            _ => {},
        }
        let ghost raw = raw_data@;
        let loaded = load_data_from_transmission(params.transmission, raw_data, allow_remote);
        let ghost lr = loaded;
        proof {
            assert(load_outcome(params.transmission, raw, allow_remote, lr));
        }
        match loaded {
            Err(e) => {
                KittyFinish::Done(Err(e))
            },
            Ok(KittyLoad::Data(data)) => KittyFinish::Done(finish_with_data(&params, id, data)),
            Ok(request) => KittyFinish::Load { params, id, request },
        }
    }

    /// Decode complete: generates the result of the command.
    /// `allow_remote`: if false, file / temp file / shared memory transfers are
    /// refused. Reads from files or shared memory are not performed here: such
    /// a command reports an error; use [`KittyDecoder::finish_step`] to
    /// perform the read.
    pub fn finish(self, next_id: u32, allow_remote: bool) -> (r: Result<KittyDecodeResult, String>)
        requires
            self.spec_params().format == KittyFormat::Rgb ==> !rgb_padding_overflows(
                self.spec_params().width,
                self.spec_params().height,
            ),
        ensures
            finish_outcome(self.spec_params(), self.buffered(), next_id, allow_remote, r),
    {
        match self.finish_step(next_id, allow_remote) {
            KittyFinish::Done(r) => r,
            KittyFinish::Load { .. } => Err("payload must be read from outside the terminal core".to_string()),
        }
    }
}

/// `/tmp/`, as bytes.
pub open spec fn tmp_dir_prefix() -> Seq<u8> {
    seq![0x2fu8, 0x74u8, 0x6du8, 0x70u8, 0x2fu8]
}

/// `/dev/shm/`, as bytes.
pub open spec fn shm_dir_prefix() -> Seq<u8> {
    seq![0x2fu8, 0x64u8, 0x65u8, 0x76u8, 0x2fu8, 0x73u8, 0x68u8, 0x6du8, 0x2fu8]
}

/// Whether a temporary file, by its resolved path, lies under `/tmp/` or
/// `/dev/shm/`: only such files are read (and removed) for `t=t`.
pub fn temp_path_allowed(resolved: &[u8]) -> (r: bool)
    ensures
        r == (tmp_dir_prefix().is_prefix_of(resolved@) || shm_dir_prefix().is_prefix_of(resolved@)),
{
    let b = resolved;
    let tmp = b.len() >= 5 && b[0] == 0x2f && b[1] == 0x74 && b[2] == 0x6d && b[3] == 0x70 && b[4]
        == 0x2f;
    let shm = b.len() >= 9 && b[0] == 0x2f && b[1] == 0x64 && b[2] == 0x65 && b[3] == 0x76 && b[4]
        == 0x2f && b[5] == 0x73 && b[6] == 0x68 && b[7] == 0x6d && b[8] == 0x2f;
    proof {
        if tmp {
            assert(tmp_dir_prefix() =~= b@.take(5));
        }
        if b@.len() >= 5 && tmp_dir_prefix().is_prefix_of(b@) {
            assert(b@.take(5) == tmp_dir_prefix());
            assert(b@[0] == b@.take(5)[0] && b@[1] == b@.take(5)[1] && b@[2] == b@.take(5)[2]
                && b@[3] == b@.take(5)[3] && b@[4] == b@.take(5)[4]);
        }
        if shm {
            assert(shm_dir_prefix() =~= b@.take(9));
        }
        if b@.len() >= 9 && shm_dir_prefix().is_prefix_of(b@) {
            assert(b@.take(9) == shm_dir_prefix());
            assert(b@[0] == b@.take(9)[0] && b@[1] == b@.take(9)[1] && b@[2] == b@.take(9)[2]
                && b@[3] == b@.take(9)[3] && b@[4] == b@.take(9)[4] && b@[5] == b@.take(9)[5]
                && b@[6] == b@.take(9)[6] && b@[7] == b@.take(9)[7] && b@[8] == b@.take(9)[8]);
        }
    }
    tmp || shm
}

/// The message for a payload of `n` bytes read from `t` that exceeds
/// `MAX_IMAGE_DATA_SIZE`.
pub open spec fn load_too_large_message(t: KittyTransmission, n: nat) -> Seq<char> {
    let what = match t {
        KittyTransmission::TempFile => "temp file too large: "@,
        KittyTransmission::SharedMemory => "shared memory too large: "@,
        _ => "file too large: "@,
    };
    what + decimal_text(n) + " bytes (max 268435456)"@
}

/// Builds [`load_too_large_message`].
fn load_too_large_error(t: KittyTransmission, n: usize) -> (r: String)
    ensures
        r@ == load_too_large_message(t, n as nat),
{
    let mut s = match t {
        KittyTransmission::TempFile => String::from_str("temp file too large: "),
        KittyTransmission::SharedMemory => String::from_str("shared memory too large: "),
        _ => String::from_str("file too large: "),
    };
    append_decimal(&mut s, n as u64);
    s.append(" bytes (max 268435456)");
    proof {
        assert(s@ =~= load_too_large_message(t, n as nat));
    }
    s
}

/// The result of completing a command with parameters `p` and image id
/// `id` once its payload was read from outside, `read` being what the read
/// gave: a read error is passed on, a payload over `MAX_IMAGE_DATA_SIZE`
/// is refused, and any other payload is decoded as a direct one.
pub open spec fn loaded_outcome(p: KittyParams, id: u32, read: Result<Vec<u8>, String>, r: Result<
    KittyDecodeResult,
    String,
>) -> bool {
    match read {
        Err(e) => r matches Err(m) && m@ == e@,
        Ok(d) => if d@.len() > MAX_IMAGE_DATA_SIZE {
            r matches Err(m) && m@ == load_too_large_message(p.transmission, d@.len())
        } else {
            data_outcome(p, id, d@, r)
        },
    }
}

/// Completes a command whose payload was read from outside: `read` is the
/// payload, or the error the read reported.
pub fn finish_loaded(params: &KittyParams, id: u32, read: Result<Vec<u8>, String>) -> (r: Result<
    KittyDecodeResult,
    String,
>)
    requires
        params.format == KittyFormat::Rgb ==> !rgb_padding_overflows(params.width, params.height),
    ensures
        loaded_outcome(*params, id, read, r),
        r matches Ok(res) ==> (res matches KittyDecodeResult::Frame(f) && params.action
            == KittyAction::Frame && frame_fields(f, *params, id)) || (res matches KittyDecodeResult::Image(
            img,
        ) && params.action != KittyAction::Frame && image_fields(img, *params, id)),
{
    match read {
        Err(e) => Err(e),
        Ok(data) => {
            if data.len() > MAX_IMAGE_DATA_SIZE {
                Err(load_too_large_error(params.transmission, data.len()))
            } else {
                finish_with_data(params, id, data)
            }
        },
    }
}

/// Generate a Kitty response: `ESC _ G i=<id> ; OK ESC \` on success, the
/// message in place of `OK` otherwise.
pub fn make_response(id: u32, ok: bool, message: &str) -> (r: Vec<u8>)
    ensures
        r@ == seq![0x1bu8, 0x5fu8, 0x47u8, 0x69u8, 0x3du8] + decimal(id as nat) + seq![0x3bu8] + (if ok {
            seq![0x4fu8, 0x4bu8]
        } else {
            message.spec_bytes()
        }) + seq![0x1bu8, 0x5cu8],
{
    let mut out: Vec<u8> = Vec::new();
    out.push(0x1b);
    out.push(0x5f);
    out.push(0x47);
    out.push(0x69);
    out.push(0x3d);
    push_decimal(&mut out, id);
    out.push(0x3b);
    let ghost mid = out@;
    if ok {
        out.push(0x4f);
        out.push(0x4b);
    } else {
        let mb = message.as_bytes();
        let mut i: usize = 0;
        while i < mb.len()
            invariant
                0 <= i <= mb.len(),
                out@ == mid + mb@.subrange(0, i as int),
            decreases mb.len() - i,
        {
            out.push(mb[i]);
            proof {
                assert(mb@.subrange(0, i + 1) =~= mb@.subrange(0, i as int).push(mb@[i as int]));
                assert(mid + mb@.subrange(0, i + 1) =~= (mid + mb@.subrange(0, i as int)).push(
                    mb@[i as int],
                ));
            }
            i = i + 1;
        }
        proof {
            assert(mb@.subrange(0, mb@.len() as int) =~= mb@);
        }
    }
    out.push(0x1b);
    out.push(0x5c);
    proof {
        let head = seq![0x1bu8, 0x5fu8, 0x47u8, 0x69u8, 0x3du8];
        let body = if ok {
            seq![0x4fu8, 0x4bu8]
        } else {
            message.spec_bytes()
        };
        assert(out@ =~= head + decimal(id as nat) + seq![0x3bu8] + body + seq![0x1bu8, 0x5cu8]);
    }
    out
}

/// Decimal digits of `n` (no leading zeros; `0` for zero).
pub open spec fn decimal(n: nat) -> Seq<u8>
    decreases n,
{
    if n < 10 {
        seq![(0x30 + n) as u8]
    } else {
        decimal(n / 10).push((0x30 + n % 10) as u8)
    }
}

/// The decimal digits of `n`, as text.
pub open spec fn decimal_text(n: nat) -> Seq<char>
    decreases n,
{
    if n < 10 {
        seq![(0x30 + n) as char]
    } else {
        decimal_text(n / 10).push((0x30 + n % 10) as char)
    }
}

/// The one-character string of the decimal digit `d`.
fn digit_str(d: u64) -> (r: &'static str)
    requires
        d < 10,
    ensures
        r@ == seq![(0x30 + d) as char],
{
    proof {
        reveal_strlit("0");
        reveal_strlit("1");
        reveal_strlit("2");
        reveal_strlit("3");
        reveal_strlit("4");
        reveal_strlit("5");
        reveal_strlit("6");
        reveal_strlit("7");
        reveal_strlit("8");
        reveal_strlit("9");
    }
    if d == 0 {
        "0"
    } else if d == 1 {
        "1"
    } else if d == 2 {
        "2"
    } else if d == 3 {
        "3"
    } else if d == 4 {
        "4"
    } else if d == 5 {
        "5"
    } else if d == 6 {
        "6"
    } else if d == 7 {
        "7"
    } else if d == 8 {
        "8"
    } else {
        "9"
    }
}

/// Appends the decimal digits of `n` to the text `s`.
pub(crate) fn append_decimal(s: &mut String, n: u64)
    ensures
        final(s)@ == old(s)@ + decimal_text(n as nat),
    decreases n,
{
    if n >= 10 {
        append_decimal(s, n / 10);
    }
    s.append(digit_str(n % 10));
    proof {
        assert(s@ =~= old(s)@ + decimal_text(n as nat));
    }
}

/// The message for a decoded PNG whose `n` pixel bytes exceed the limit:
/// `decoded PNG too large: <w>x<h> = <n> bytes (max 268435456)`.
pub open spec fn png_too_large_message(w: u32, h: u32, n: nat) -> Seq<char> {
    "decoded PNG too large: "@ + decimal_text(w as nat) + "x"@ + decimal_text(h as nat) + " = "@
        + decimal_text(n) + " bytes (max 268435456)"@
}

/// Builds [`png_too_large_message`].
fn png_too_large_error(w: u32, h: u32, n: usize) -> (r: String)
    ensures
        r@ == png_too_large_message(w, h, n as nat),
{
    let mut s = String::from_str("decoded PNG too large: ");
    append_decimal(&mut s, w as u64);
    s.append("x");
    append_decimal(&mut s, h as u64);
    s.append(" = ");
    append_decimal(&mut s, n as u64);
    s.append(" bytes (max 268435456)");
    proof {
        assert(s@ =~= png_too_large_message(w, h, n as nat));
    }
    s
}

/// Appends the decimal digits of `n`.
pub fn push_decimal(out: &mut Vec<u8>, n: u32)
    ensures
        final(out)@ == old(out)@ + decimal(n as nat),
    decreases n,
{
    if n >= 10 {
        push_decimal(out, n / 10);
    }
    let ghost before = out@;
    out.push(0x30 + (n % 10) as u8);
    proof {
        if n >= 10 {
            assert(out@ =~= old(out)@ + decimal(n as nat));
        } else {
            assert(out@ =~= old(out)@ + decimal(n as nat));
        }
    }
}

// ---------------------------------------------------------------------------
// Outside decoders
// ---------------------------------------------------------------------------

/// What reading the zlib stream `data` decompresses to, read to its end but
/// stopping after `cap` bytes: the bytes read, or `None` when the decoder
/// reports an error first.
pub uninterp spec fn zlib_read_capped(data: Seq<u8>, cap: u64) -> Option<Seq<u8>>;

/// Reads a `flate2::read::ZlibDecoder` over `data` to its end with
/// `Read::read_to_end`, through `Read::take(cap)`. The result depends on the
/// bytes and the cap alone and is named by [`zlib_read_capped`]; `take`
/// yields at most `cap` bytes, as its documentation states. Read errors are
/// reported as a message.
#[verifier::external_body]
fn zlib_read_to_end(data: &[u8], cap: u64) -> (r: Result<Vec<u8>, String>)
    ensures
        match r {
            Ok(v) => zlib_read_capped(data@, cap) == Some(v@) && v@.len() <= cap,
            Err(_) => zlib_read_capped(data@, cap) is None,
        },
{
    let mut out = Vec::new();
    match std::io::Read::read_to_end(&mut std::io::Read::take(flate2::read::ZlibDecoder::new(data), cap), &mut out) {
        Ok(_) => Ok(out),
        Err(e) => Err(format!("zlib decompress error: {}", e)),
    }
}

/// The outcome of decompression given what the capped read gave: its bytes
/// when there are at most `MAX_IMAGE_DATA_SIZE`, an error when there are
/// more (the read stops one byte past the limit) or the read failed.
pub fn limit_decompressed(read: Result<Vec<u8>, String>) -> (r: Result<Vec<u8>, String>)
    ensures
        match read {
            Ok(v) => if v@.len() <= MAX_IMAGE_DATA_SIZE {
                r matches Ok(w) && w@ == v@
            } else {
                r matches Err(m) && m@ == "decompressed data too large (max 268435456 bytes)"@
            },
            Err(e) => r matches Err(m) && m@ == e@,
        },
{
    match read {
        Ok(v) => {
            if v.len() > MAX_IMAGE_DATA_SIZE {
                Err("decompressed data too large (max 268435456 bytes)".to_string())
            } else {
                Ok(v)
            }
        },
        Err(e) => Err(e),
    }
}

/// zlib decompression with an output size limit: the decompressed bytes
/// when the stream decodes without error to at most `MAX_IMAGE_DATA_SIZE`
/// bytes; otherwise an error.
pub fn decompress_zlib(data: &[u8]) -> (r: Result<Vec<u8>, String>)
    ensures
        match zlib_read_capped(data@, (MAX_IMAGE_DATA_SIZE + 1) as u64) {
            Some(v) => if v.len() <= MAX_IMAGE_DATA_SIZE {
                r matches Ok(w) && w@ == v
            } else {
                r matches Err(m) && m@ == "decompressed data too large (max 268435456 bytes)"@
            },
            None => r is Err,
        },
{
    limit_decompressed(zlib_read_to_end(data, (MAX_IMAGE_DATA_SIZE + 1) as u64))
}

/// What the `image` crate decodes `data` to, its format guessed from the
/// content, as 8-bit RGBA: width, height and pixel bytes, or `None` when it
/// cannot decode it.
pub uninterp spec fn image_rgba8_of(data: Seq<u8>) -> Option<(u32, u32, Seq<u8>)>;

/// `image::load_from_memory`, the image then converted with
/// `DynamicImage::to_rgba8` and taken apart into its width, height and raw
/// pixel bytes. The result depends on the bytes alone and is named by
/// [`image_rgba8_of`]. Decoding errors are reported as a message.
#[verifier::external_body]
fn image_decode_rgba8(data: &[u8]) -> (r: Result<(u32, u32, Vec<u8>), String>)
    ensures
        match r {
            Ok((w, h, v)) => image_rgba8_of(data@) == Some((w, h, v@)),
            Err(_) => image_rgba8_of(data@) is None,
        },
{
    match image::load_from_memory(data) {
        Ok(img) => {
            let rgba = img.to_rgba8();
            let (w, h) = rgba.dimensions();
            Ok((w, h, rgba.into_raw()))
        },
        Err(e) => Err(format!("PNG decode error: {}", e)),
    }
}

/// The outcome of PNG decoding given what the decoder gave: the image when
/// its pixel bytes stay within `MAX_IMAGE_DATA_SIZE`, an error otherwise or
/// when decoding failed.
pub fn limit_decoded_png(decoded: Result<(u32, u32, Vec<u8>), String>) -> (r: Result<(u32, u32, Vec<u8>), String>)
    ensures
        match decoded {
            Ok((w, h, v)) => if v@.len() <= MAX_IMAGE_DATA_SIZE {
                r matches Ok((w2, h2, v2)) && w2 == w && h2 == h && v2@ == v@
            } else {
                r matches Err(m) && m@ == png_too_large_message(w, h, v@.len())
            },
            Err(e) => r matches Err(m) && m@ == e@,
        },
{
    match decoded {
        Ok((w, h, v)) => {
            if v.len() > MAX_IMAGE_DATA_SIZE {
                Err(png_too_large_error(w, h, v.len()))
            } else {
                Ok((w, h, v))
            }
        },
        Err(e) => Err(e),
    }
}

/// PNG decode (chunk CRCs are repaired first): the image the decoder makes
/// of the repaired bytes, when its pixel bytes stay within
/// `MAX_IMAGE_DATA_SIZE`; otherwise an error.
pub fn decode_png(data: &[u8]) -> (r: Result<(u32, u32, Vec<u8>), String>)
    ensures
        match image_rgba8_of(crc_fixed(data@)) {
            Some((w, h, v)) => if v.len() <= MAX_IMAGE_DATA_SIZE {
                r matches Ok((w2, h2, v2)) && w2 == w && h2 == h && v2@ == v
            } else {
                r matches Err(m) && m@ == png_too_large_message(w, h, v.len())
            },
            None => r is Err,
        },
{
    let fixed = fix_png_checksums(data);
    limit_decoded_png(image_decode_rgba8(fixed.as_slice()))
}

/// The CRC-32 (as used by PNG and zlib) of a byte string.
pub uninterp spec fn crc32_of(data: Seq<u8>) -> u32;

/// `flate2::Crc` (new, update, sum): the CRC-32 of the bytes.
#[verifier::external_body]
fn crc32(data: &[u8]) -> (r: u32)
    ensures
        r == crc32_of(data@),
{
    let mut crc = flate2::Crc::new();
    crc.update(data);
    crc.sum()
}

pub open spec fn png_signature() -> Seq<u8> {
    seq![0x89u8, 0x50u8, 0x4Eu8, 0x47u8, 0x0Du8, 0x0Au8, 0x1Au8, 0x0Au8]
}

/// Big-endian 32-bit value at `d[i..i+4]`.
pub open spec fn be32(d: Seq<u8>, i: int) -> u32 {
    ((d[i] as u32) << 24) | ((d[i + 1] as u32) << 16) | ((d[i + 2] as u32) << 8) | (d[i + 3] as u32)
}

/// Big-endian bytes of a 32-bit value.
pub open spec fn be_bytes(v: u32) -> Seq<u8> {
    seq![(v >> 24) as u8, (v >> 16) as u8, (v >> 8) as u8, v as u8]
}

/// The chunks from `pos` on, each with its CRC recomputed; a chunk whose
/// declared length runs past the end is copied as it is with everything after
/// it, and fewer than 12 trailing bytes are dropped.
pub open spec fn fixed_chunks(d: Seq<u8>, pos: nat) -> Seq<u8>
    decreases d.len() - pos,
{
    if pos + 12 > d.len() {
        Seq::empty()
    } else {
        let len = be32(d, pos as int) as nat;
        if pos + 12 + len > d.len() {
            d.skip(pos as int)
        } else {
            d.subrange(pos as int, (pos + 8 + len) as int) + be_bytes(
                crc32_of(d.subrange((pos + 4) as int, (pos + 8 + len) as int)),
            ) + fixed_chunks(d, pos + 12 + len)
        }
    }
}

/// PNG data with every chunk CRC recomputed; other data unchanged.
pub open spec fn crc_fixed(d: Seq<u8>) -> Seq<u8> {
    if d.len() < 12 || d.take(8) != png_signature() {
        d
    } else {
        d.take(8) + fixed_chunks(d, 8)
    }
}

/// Recalculate PNG chunk CRCs for compatibility with non-conforming PNGs.
#[verifier::spinoff_prover]
#[verifier::rlimit(40)]
pub fn fix_png_checksums(data: &[u8]) -> (r: Vec<u8>)
    ensures
        r@ == crc_fixed(data@),
{
    let n = data.len();
    let sig_ok = n >= 12 && data[0] == 0x89 && data[1] == 0x50 && data[2] == 0x4E && data[3] == 0x47
        && data[4] == 0x0D && data[5] == 0x0A && data[6] == 0x1A && data[7] == 0x0A;
    proof {
        if n >= 12 {
            if sig_ok {
                assert(data@.take(8) =~= png_signature());
            } else {
                assert(data@.take(8)[0] == data@[0] && data@.take(8)[1] == data@[1] && data@.take(8)[2]
                    == data@[2] && data@.take(8)[3] == data@[3] && data@.take(8)[4] == data@[4]
                    && data@.take(8)[5] == data@[5] && data@.take(8)[6] == data@[6] && data@.take(8)[7]
                    == data@[7]);
                assert(data@.take(8) != png_signature());
            }
        }
    }
    if !sig_ok {
        return slice_range(data, 0, n);
    }
    let mut fixed = slice_range(data, 0, 8);
    let mut pos: usize = 8;
    while n - pos >= 12
        invariant
            8 <= pos <= n,
            n == data@.len(),
            n >= 12,
            data@.take(8) == png_signature(),
            fixed@ + fixed_chunks(data@, pos as nat) == data@.take(8) + fixed_chunks(data@, 8),
        decreases n - pos,
    {
        let chunk_len = ((data[pos] as u32) << 24) | ((data[pos + 1] as u32) << 16) | ((data[pos
            + 2] as u32) << 8) | (data[pos + 3] as u32);
        proof {
            assert(chunk_len == be32(data@, pos as int));
        }
        if (chunk_len as u64) > ((n - pos - 12) as u64) {
            let rest = slice_range(data, pos, n);
            let ghost before = fixed@;
            append_bytes(&mut fixed, &rest);
            proof {
                assert(data@.skip(pos as int) =~= data@.subrange(pos as int, n as int));
                assert(fixed_chunks(data@, pos as nat) == data@.skip(pos as int));
                assert(fixed@ =~= before + data@.skip(pos as int));
            }
            return fixed;
        }
        let clen = chunk_len as usize;
        let body = slice_range(data, pos, pos + 8 + clen);
        append_bytes(&mut fixed, &body);
        let covered = slice_range(data, pos + 4, pos + 8 + clen);
        let crc = crc32(covered.as_slice());
        fixed.push((crc >> 24) as u8);
        fixed.push((crc >> 16) as u8);
        fixed.push((crc >> 8) as u8);
        fixed.push(crc as u8);
        proof {
            let ghost c = be_bytes(crc32_of(data@.subrange(pos + 4, pos + 8 + clen)));
            assert(fixed_chunks(data@, pos as nat) == data@.subrange(pos as int, pos + 8 + clen) + c
                + fixed_chunks(data@, (pos + 12 + clen) as nat));
        }
        pos = pos + 12 + clen;
    }
    proof {
        assert(fixed_chunks(data@, pos as nat) == Seq::<u8>::empty());
        assert(fixed@ + Seq::<u8>::empty() =~= fixed@);
    }
    fixed
}
} // verus!
