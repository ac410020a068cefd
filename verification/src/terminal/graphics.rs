//! Kitty graphics commands applied to the terminal: decoded images are
//! registered and placed, frames are stored, frames composed and
//! animations controlled; each command owes a reply unless it asked for
//! quiet.

use vstd::prelude::*;
use vstd::string::StringSliceAdditionalSpecFns;

use crate::terminal::compose::{
    alloc_size, compose_fits, compose_frames, compose_outcome, frame_bytes, frame_replaced,
    sat_mul, ComposeError, MAX_COMPOSE_BYTES,
};
use crate::terminal::grid::{apply_rule_all, image_placed, Grid, GridModel, PlacementRule};
use crate::terminal::images::{
    evict_oldest, frames_bytes, image_size, lemma_image_within_total, lemma_map_bytes_replace,
    map_bytes, AnimationState, ImageFrame, ImageRegistry, TerminalImage, MAX_IMAGE_COUNT,
    MAX_TOTAL_IMAGE_BYTES,
};
use crate::terminal::kitty::{
    accumulate, apply_control, command_id, control_part, decimal, default_params, payload_part, finish_outcome, finish_loaded, push_decimal, rgb_padding_overflows, KittyAction,
    KittyAnimationCmd, KittyComposeCmd, KittyDecodeResult, KittyDecoder, KittyFormat,
    KittyFrameData, KittyImage, KittyParams, KittyPendingLoad, KittyFinish, KittyTransmission,
    load_error, load_outcome, loaded_outcome, is_dataless,
};
use crate::terminal::term::{ApcState, Terminal, MAX_APC_BUFFER_SIZE};
use vstd::utf8::valid_utf8;
use crate::terminal::parser::{push_all, push_decimal_usize};

verus! {

// ============================================================================
// Replies
// ============================================================================
/// The Kitty reply `ESC _ G i=<id> ; OK ESC \`, or with `msg` in place of
/// `OK` on failure.
pub open spec fn kitty_reply(id: u32, ok: bool, msg: Seq<u8>) -> Seq<u8> {
    seq![0x1bu8, 0x5fu8, 0x47u8, 0x69u8, 0x3du8] + decimal(id as nat) + seq![0x3bu8] + (if ok {
        seq![0x4fu8, 0x4bu8]
    } else {
        msg
    }) + seq![0x1bu8, 0x5cu8]
}

/// The reply a command owes: none when it asked for quiet 2.
pub open spec fn quiet_reply(quiet: u8, id: u32, ok: bool, msg: Seq<u8>) -> Seq<u8> {
    if quiet < 2 {
        kitty_reply(id, ok, msg)
    } else {
        seq![]
    }
}

/// The failure text of a refused composition.
pub open spec fn compose_error_text(e: ComposeError) -> Seq<u8> {
    match e {
        ComposeError::SourceMissing(n) => "ENOENT:source frame ".spec_bytes() + decimal(n as nat)
            + " not found".spec_bytes(),
        ComposeError::DestinationMissing(n) => "ENOENT:destination frame ".spec_bytes() + decimal(
            n as nat,
        ) + " not found".spec_bytes(),
        ComposeError::TooLarge(a) => "compose_frames: allocation too large (".spec_bytes()
            + decimal(a as nat) + ")".spec_bytes(),
    }
}

/// Appends the reply to a command, unless it asked for quiet 2.
pub(crate) fn push_kitty_reply(out: &mut Vec<u8>, quiet: u8, id: u32, ok: bool, msg: &[u8])
    ensures
        final(out)@ == old(out)@ + quiet_reply(quiet, id, ok, msg@),
{
    if quiet >= 2 {
        proof {
            assert(out@ =~= old(out)@ + Seq::<u8>::empty());
        }
        return;
    }
    let ghost o = out@;
    out.push(0x1b);
    out.push(0x5f);
    out.push(0x47);
    out.push(0x69);
    out.push(0x3d);
    push_decimal(out, id);
    out.push(0x3b);
    if ok {
        out.push(0x4f);
        out.push(0x4b);
    } else {
        push_all(out, msg);
    }
    out.push(0x1b);
    out.push(0x5c);
    proof {
        assert(out@ =~= o + kitty_reply(id, ok, msg@));
    }
}

/// The failure text of a refused composition, as bytes.
fn compose_error_bytes(e: ComposeError) -> (r: Vec<u8>)
    ensures
        r@ == compose_error_text(e),
{
    let mut out: Vec<u8> = Vec::new();
    match e {
        ComposeError::SourceMissing(n) => {
            push_all(&mut out, "ENOENT:source frame ".as_bytes());
            push_decimal(&mut out, n);
            push_all(&mut out, " not found".as_bytes());
        },
        ComposeError::DestinationMissing(n) => {
            push_all(&mut out, "ENOENT:destination frame ".as_bytes());
            push_decimal(&mut out, n);
            push_all(&mut out, " not found".as_bytes());
        },
        ComposeError::TooLarge(a) => {
            push_all(&mut out, "compose_frames: allocation too large (".as_bytes());
            push_decimal_usize(&mut out, a);
            push_all(&mut out, ")".as_bytes());
        },
    }
    proof {
        assert(out@ =~= compose_error_text(e));
    }
    out
}

// ============================================================================
// Sizes of frame lists
// ============================================================================
proof fn lemma_frames_bytes_same_lens(a: Seq<ImageFrame>, b: Seq<ImageFrame>, n: int)
    requires
        n <= a.len(),
        n <= b.len(),
        forall|j: int| 0 <= j < n ==> #[trigger] a[j].data@.len() == b[j].data@.len(),
    ensures
        frames_bytes(a, n) == frames_bytes(b, n),
    decreases n,
{
    if n > 0 {
        lemma_frames_bytes_same_lens(a, b, n - 1);
    }
}

proof fn lemma_frames_bytes_update(a: Seq<ImageFrame>, k: int, f: ImageFrame, n: int)
    requires
        0 <= k < a.len(),
        k < n <= a.len(),
    ensures
        frames_bytes(a.update(k, f), n) + a[k].data@.len() == frames_bytes(a, n) + f.data@.len(),
    decreases n,
{
    if n - 1 > k {
        lemma_frames_bytes_update(a, k, f, n - 1);
    } else {
        lemma_frames_bytes_same_lens(a.update(k, f), a, k);
    }
}

// ============================================================================
// Images
// ============================================================================
/// `t` is the registry entry made of a decoded image.
pub open spec fn fresh_image(t: TerminalImage, img: KittyImage) -> bool {
    &&& t.id == img.id
    &&& t.width == img.width
    &&& t.height == img.height
    &&& t.data == img.data
    &&& t.frames@.len() == 0
    &&& t.animation_state == AnimationState::Stopped
    &&& t.current_frame == 0
    &&& t.loop_count == 0
    &&& t.current_loop == 0
}

/// The images after registering `t`: a former image of the same ID is
/// replaced and the oldest are evicted to make room.
pub open spec fn registered(m: Map<u32, TerminalImage>, t: TerminalImage) -> Map<u32, TerminalImage> {
    let base = m.remove(t.id);
    let (kept, _) = evict_oldest(
        base,
        map_bytes(base) as int,
        MAX_IMAGE_COUNT - 1,
        MAX_TOTAL_IMAGE_BYTES - image_size(t),
    );
    kept.insert(t.id, t)
}

/// The grid after an image arrives: placements of a replaced image go, and
/// the image is placed at the cursor when the command displays it.
pub open spec fn image_shown(
    g: GridModel,
    replaced: bool,
    img: KittyImage,
    display: bool,
    cw: u32,
    ch: u32,
) -> GridModel {
    let g1 = if replaced {
        GridModel { placements: apply_rule_all(PlacementRule::NotId(img.id), g.placements), ..g }
    } else {
        g
    };
    if display {
        image_placed(g1, img.id, img.width, img.height, cw, ch, img.do_not_move_cursor)
    } else {
        g1
    }
}

/// Registers a decoded image, placing it when `display`.
pub(crate) fn store_image(
    images: &mut ImageRegistry,
    grid: &mut Grid,
    dirty: &mut Vec<u32>,
    out: &mut Vec<u8>,
    img: KittyImage,
    display: bool,
    quiet: u8,
    cw: u32,
    ch: u32,
)
    requires
        old(images).wf(),
        old(grid).wf(),
    ensures
        final(images).wf(),
        final(grid).wf(),
        exists|t: TerminalImage| #[trigger]
            fresh_image(t, img) && final(images)@ == registered(old(images)@, t),
        final(images).next_id_value() == (if img.id >= old(images).next_id_value() {
            vstd::wrapping::u32_specs::wrapping_add(img.id, 1)
        } else {
            old(images).next_id_value()
        }),
        final(grid)@ == image_shown(
            old(grid)@,
            old(images)@.contains_key(img.id),
            img,
            display,
            cw,
            ch,
        ),
        final(dirty)@ == (if old(images)@.contains_key(img.id) {
            old(dirty)@.push(img.id)
        } else {
            old(dirty)@
        }),
        final(out)@ == old(out)@ + quiet_reply(quiet, img.id, true, seq![]),
{
    let id = img.id;
    let width = img.width;
    let height = img.height;
    let no_move = img.do_not_move_cursor;
    let ghost g0 = grid@;
    let term_img = TerminalImage {
        id,
        width,
        height,
        data: img.data,
        frames: Vec::new(),
        animation_state: AnimationState::Stopped,
        current_frame: 0,
        loop_count: 0,
        current_loop: 0,
    };
    let n = term_img.data.len();
    proof {
        assert(image_size(term_img) == n);
    }
    if images.contains(id) {
        dirty.push(id);
        grid.remove_placements_of(id);
    }
    let ghost t = term_img;
    images.insert(term_img);
    if display {
        grid.place_image(id, width, height, cw, ch, no_move);
    }
    push_kitty_reply(out, quiet, id, true, &[]);
    proof {
        assert(fresh_image(t, img));
        assert(Seq::<u8>::empty() =~= seq![]);
    }
}

// ============================================================================
// Frames
// ============================================================================
/// The frame a frame command stores.
pub open spec fn new_frame(fd: KittyFrameData) -> ImageFrame {
    ImageFrame {
        number: fd.frame_number,
        width: fd.width,
        height: fd.height,
        x: fd.x,
        y: fd.y,
        gap: fd.gap,
        data: fd.data,
    }
}

/// An empty frame filling the gap before a later frame: the image's size,
/// no offset, 40 ms, `size` zero bytes.
pub open spec fn gap_frame_ok(f: ImageFrame, j: int, img: TerminalImage, size: int) -> bool {
    &&& f.number == (j + 2) as u32
    &&& f.width == img.width
    &&& f.height == img.height
    &&& f.x == 0
    &&& f.y == 0
    &&& f.gap == 40
    &&& f.data@ == Seq::new(size as nat, |i: int| 0u8)
}

/// Everything of the image but its frames is unchanged.
pub open spec fn same_but_frames(old: TerminalImage, new: TerminalImage) -> bool {
    &&& new.id == old.id
    &&& new.width == old.width
    &&& new.height == old.height
    &&& new.data == old.data
    &&& new.animation_state == old.animation_state
    &&& new.current_frame == old.current_frame
    &&& new.loop_count == old.loop_count
    &&& new.current_loop == old.current_loop
}

/// The bytes of a gap frame of `img`: its pixel count times four,
/// saturating.
pub open spec fn gap_frame_size(img: TerminalImage) -> int {
    alloc_size(img.width as int, img.height as int)
}

/// How frame `fd` (numbered 1 or more) is stored in `old`, giving `new`:
/// frame 1 replaces the root image, an existing extra frame is replaced,
/// and a later one is appended after empty gap frames, unless gap frames
/// would exceed the buffer limit.
pub open spec fn frame_stored(old: TerminalImage, new: TerminalImage, fd: KittyFrameData) -> bool {
    let k = fd.frame_number - 2;
    let len = old.frames@.len();
    if fd.frame_number == 1 {
        new == TerminalImage { data: fd.data, ..old }
    } else if k < len {
        same_but_frames(old, new) && new.frames@ == old.frames@.update(k, new_frame(fd))
    } else if gap_frame_size(old) > MAX_COMPOSE_BYTES {
        new == old
    } else {
        &&& same_but_frames(old, new)
        &&& new.frames@.len() == k + 1
        &&& forall|j: int| 0 <= j < len ==> #[trigger] new.frames@[j] == old.frames@[j]
        &&& forall|j: int| len <= j < k ==> gap_frame_ok(#[trigger] new.frames@[j], j, old, gap_frame_size(old))
        &&& new.frames@[k] == new_frame(fd)
    }
}

/// An upper bound of the bytes that storing frame `fd` adds to `old`.
pub open spec fn frame_growth(old: TerminalImage, fd: KittyFrameData) -> int {
    let k = fd.frame_number - 2;
    let len = old.frames@.len();
    if fd.frame_number == 1 || k < len || gap_frame_size(old) > MAX_COMPOSE_BYTES {
        fd.data@.len() as int
    } else {
        (k - len) * gap_frame_size(old) + fd.data@.len()
    }
}

/// `n` zero bytes.
fn zeros(n: usize) -> (r: Vec<u8>)
    ensures
        r@ == Seq::new(n as nat, |i: int| 0u8),
{
    let mut v: Vec<u8> = Vec::new();
    let mut i: usize = 0;
    while i < n
        invariant
            0 <= i <= n,
            v@ == Seq::new(i as nat, |j: int| 0u8),
        decreases n - i,
    {
        v.push(0);
        i = i + 1;
        proof {
            assert(v@ =~= Seq::new(i as nat, |j: int| 0u8));
        }
    }
    v
}

/// Stores frame `fd` in `image`.
fn apply_frame(image: &mut TerminalImage, fd: KittyFrameData)
    requires
        fd.frame_number >= 1,
    ensures
        frame_stored(*old(image), *final(image), fd),
        image_size(*final(image)) <= image_size(*old(image)) + frame_growth(*old(image), fd),
{
    let ghost old_img = *image;
    let ghost fdv = fd;
    if fd.frame_number == 1 {
        image.data = fd.data;
        proof {
            assert(*image == TerminalImage { data: fdv.data, ..old_img });
        }
        return;
    }
    let k = (fd.frame_number - 2) as usize;
    let frame = ImageFrame {
        number: fd.frame_number,
        width: fd.width,
        height: fd.height,
        x: fd.x,
        y: fd.y,
        gap: fd.gap,
        data: fd.data,
    };
    let len = image.frames.len();
    if k < len {
        proof {
            lemma_frames_bytes_update(old_img.frames@, k as int, frame, len as int);
        }
        image.frames.set(k, frame);
        return;
    }
    let w = image.width;
    let h = image.height;
    let gap = sat_mul(sat_mul(w as usize, h as usize), 4);
    proof {
        assert(gap == gap_frame_size(old_img));
    }
    if gap > MAX_COMPOSE_BYTES {
        return;
    }
    while image.frames.len() < k
        invariant
            len <= image.frames@.len() <= k,
            k == fdv.frame_number - 2,
            k <= u32::MAX - 2,
            len == old_img.frames@.len(),
            gap == gap_frame_size(old_img),
            w == old_img.width,
            h == old_img.height,
            same_but_frames(old_img, *image),
            forall|j: int| 0 <= j < len ==> #[trigger] image.frames@[j] == old_img.frames@[j],
            forall|j: int|
                len <= j < image.frames@.len() ==> gap_frame_ok(
                    #[trigger] image.frames@[j],
                    j,
                    old_img,
                    gap as int,
                ),
            frames_bytes(image.frames@, image.frames@.len() as int) == frames_bytes(
                old_img.frames@,
                len as int,
            ) + (image.frames@.len() - len) * gap,
        decreases k - image.frames@.len(),
    {
        let n = image.frames.len();
        let z = zeros(gap);
        let ghost before = image.frames@;
        image.frames.push(
            ImageFrame { number: n as u32 + 2, width: w, height: h, x: 0, y: 0, gap: 40, data: z },
        );
        proof {
            assert(image.frames@ == before.push(image.frames@[n as int]));
            let f = image.frames@[n as int];
            assert(f.number == (n + 2) as u32);
            assert(f.width == old_img.width);
            assert(f.height == old_img.height);
            assert(f.data@ == Seq::new(gap as nat, |i: int| 0u8));
            assert(gap_frame_ok(image.frames@[n as int], n as int, old_img, gap as int));
            assert forall|j: int| len <= j < image.frames@.len() implies gap_frame_ok(
                #[trigger] image.frames@[j],
                j,
                old_img,
                gap as int,
            ) by {
                if j < n {
                    assert(image.frames@[j] == before[j]);
                }
            }
            lemma_frames_bytes_same_lens(image.frames@, before, n as int);
            assert((n + 1 - len) * gap == (n - len) * gap + gap) by (nonlinear_arith);
        }
    }
    let ghost before = image.frames@;
    image.frames.push(frame);
    proof {
        lemma_frames_bytes_same_lens(image.frames@, before, k as int);
    }
}

/// What a frame command does to the images `before`, giving `after`.
pub open spec fn frame_outcome(before: ImageRegistry, after: ImageRegistry, fd: KittyFrameData) -> bool {
    let id = fd.image_id;
    let m = before@;
    if !m.contains_key(id) || fd.frame_number == 0 {
        after@ == m && after.tracked_bytes() == before.tracked_bytes()
    } else {
        exists|n: TerminalImage|
            #[trigger] frame_kept(m, n, fd) && (after@, after.tracked_bytes()) == evict_oldest(
                m.insert(id, n),
                map_bytes(m.insert(id, n)) as int,
                MAX_IMAGE_COUNT as int,
                MAX_TOTAL_IMAGE_BYTES as int,
            )
    }
}

/// The image after a frame command on the images `m`: the frame is stored
/// when the total size stays addressable, otherwise the image is kept as
/// it was.
pub open spec fn frame_kept(m: Map<u32, TerminalImage>, new: TerminalImage, fd: KittyFrameData) -> bool {
    let old = m[fd.image_id];
    if map_bytes(m) + frame_growth(old, fd) <= usize::MAX {
        frame_stored(old, new, fd)
    } else {
        new == old
    }
}

/// The reply to a frame command.
pub open spec fn frame_reply(m: Map<u32, TerminalImage>, fd: KittyFrameData, quiet: u8) -> Seq<u8> {
    if !m.contains_key(fd.image_id) {
        quiet_reply(quiet, fd.image_id, false, "ENOENT:image not found".spec_bytes())
    } else if fd.frame_number == 0 {
        quiet_reply(quiet, fd.image_id, false, "EINVAL:frame number 0".spec_bytes())
    } else {
        quiet_reply(quiet, fd.image_id, true, seq![])
    }
}

/// Stores a decoded animation frame in its image.
pub(crate) fn store_frame(images: &mut ImageRegistry, out: &mut Vec<u8>, fd: KittyFrameData, quiet: u8)
    requires
        old(images).wf(),
    ensures
        final(images).wf(),
        final(images).next_id_value() == old(images).next_id_value(),
        frame_outcome(*old(images), *final(images), fd),
        final(out)@ == old(out)@ + frame_reply(old(images)@, fd, quiet),
{
    let id = fd.image_id;
    if !images.contains(id) {
        push_kitty_reply(out, quiet, id, false, "ENOENT:image not found".as_bytes());
        return;
    }
    if fd.frame_number == 0 {
        push_kitty_reply(out, quiet, id, false, "EINVAL:frame number 0".as_bytes());
        return;
    }
    let ghost m = images@;
    let ghost fdv = fd;
    let total = images.total_bytes();
    let (w, h, len) = match images.get(id) {
        Some(img) => (img.width, img.height, img.frames.len()),
        None => (0, 0, 0),
    };
    proof {
        images.lemma_view_finite();
        lemma_image_within_total(m, id);
    }
    let k: usize = if fd.frame_number >= 2 {
        (fd.frame_number - 2) as usize
    } else {
        0
    };
    let gap = sat_mul(sat_mul(w as usize, h as usize), 4);
    let added = fd.data.len();
    let growth: Option<usize> = if fd.frame_number == 1 || k < len || gap > MAX_COMPOSE_BYTES {
        Some(added)
    } else {
        match (k - len).checked_mul(gap) {
            Some(g) => g.checked_add(added),
            None => None,
        }
    };
    let fits = match growth {
        Some(g) => g <= usize::MAX - total,
        None => false,
    };
    proof {
        assert(fits == (map_bytes(m) + frame_growth(m[id], fdv) <= usize::MAX));
    }
    let ghost mut n = m[id];
    match images.get_mut(id) {
        Some(image) => {
            if fits {
                apply_frame(image, fd);
            }
            proof {
                n = *image;
            }
        },
        None => {},
    }
    proof {
        assert(images@ == m.insert(id, n));
        lemma_map_bytes_replace(m, id, n);
        assert(frame_kept(m, n, fdv));
    }
    images.enforce_limits();
    push_kitty_reply(out, quiet, id, true, &[]);
    proof {
        assert(Seq::<u8>::empty() =~= seq![]);
    }
}

// ============================================================================
// Composition and animation
// ============================================================================
/// What a composition command does to the images `m`, giving `after`, and
/// the reply it owes. A composition whose frames are too short for the
/// rectangle is refused.
pub open spec fn compose_applied(
    m: Map<u32, TerminalImage>,
    after: Map<u32, TerminalImage>,
    cmd: KittyComposeCmd,
    quiet: u8,
    reply: Seq<u8>,
) -> bool {
    let id = cmd.image_id;
    if !m.contains_key(id) {
        after == m && reply == quiet_reply(quiet, id, false, "ENOENT:image not found".spec_bytes())
    } else if !compose_fits(
        m[id],
        cmd.src_frame,
        cmd.dst_frame,
        cmd.src_x,
        cmd.src_y,
        cmd.dst_x,
        cmd.dst_y,
        cmd.width,
        cmd.height,
    ) {
        after == m && reply == quiet_reply(
            quiet,
            id,
            false,
            "EINVAL:frame smaller than image".spec_bytes(),
        )
    } else {
        exists|n: TerminalImage, r: Result<(), ComposeError>|
            #[trigger] compose_outcome(
                m[id],
                n,
                r,
                cmd.src_frame,
                cmd.dst_frame,
                cmd.src_x,
                cmd.src_y,
                cmd.dst_x,
                cmd.dst_y,
                cmd.width,
                cmd.height,
                cmd.compose_mode,
            ) && after == m.insert(id, n) && reply == (match r {
                Ok(_) => quiet_reply(quiet, id, true, seq![]),
                Err(e) => quiet_reply(quiet, id, false, compose_error_text(e)),
            })
    }
}

/// A composition keeps the sizes of all frames.
proof fn lemma_compose_keeps_size(
    old: TerminalImage,
    new: TerminalImage,
    r: Result<(), ComposeError>,
    cmd: KittyComposeCmd,
)
    requires
        compose_outcome(
            old,
            new,
            r,
            cmd.src_frame,
            cmd.dst_frame,
            cmd.src_x,
            cmd.src_y,
            cmd.dst_x,
            cmd.dst_y,
            cmd.width,
            cmd.height,
            cmd.compose_mode,
        ),
    ensures
        image_size(new) == image_size(old),
{
    if new != old {
        let k = cmd.dst_frame - 2;
        if cmd.dst_frame != 1 {
            assert(frame_bytes(old, cmd.dst_frame) is Some);
            assert forall|j: int| 0 <= j < old.frames@.len() implies #[trigger] new.frames@[j].data@.len()
                == old.frames@[j].data@.len() by {
                if j != k {
                    assert(new.frames@[j] == old.frames@[j]);
                }
            }
            lemma_frames_bytes_same_lens(new.frames@, old.frames@, old.frames@.len() as int);
        }
    }
}

/// Applies a composition command.
pub(crate) fn apply_compose(images: &mut ImageRegistry, out: &mut Vec<u8>, cmd: KittyComposeCmd, quiet: u8)
    requires
        old(images).wf(),
    ensures
        final(images).wf(),
        final(images).next_id_value() == old(images).next_id_value(),
        final(images).tracked_bytes() == old(images).tracked_bytes(),
        compose_applied(old(images)@, final(images)@, cmd, quiet, final(out)@.skip(old(out)@.len() as int)),
        final(out)@.take(old(out)@.len() as int) == old(out)@,
{
    let id = cmd.image_id;
    let ghost o = out@;
    let ghost m = images@;
    proof {
        images.lemma_view_finite();
    }
    let ghost mut n: TerminalImage = arbitrary();
    let ghost mut rr: Result<(), ComposeError> = Ok(());
    let ghost mut fits_g = false;
    let ghost mut reply_g: Seq<u8> = seq![];
    match images.get_mut(id) {
        None => {
            push_kitty_reply(out, quiet, id, false, "ENOENT:image not found".as_bytes());
            proof {
                reply_g = quiet_reply(quiet, id, false, "ENOENT:image not found".spec_bytes());
            }
        },
        Some(image) => {
            let fits = compose_check(
                &*image,
                cmd.src_frame,
                cmd.dst_frame,
                cmd.src_x,
                cmd.src_y,
                cmd.dst_x,
                cmd.dst_y,
                cmd.width,
                cmd.height,
            );
            proof {
                fits_g = fits;
            }
            if !fits {
                push_kitty_reply(out, quiet, id, false, "EINVAL:frame smaller than image".as_bytes());
                proof {
                    reply_g = quiet_reply(
                        quiet,
                        id,
                        false,
                        "EINVAL:frame smaller than image".spec_bytes(),
                    );
                }
            } else {
                let ghost before = *image;
                let r = compose_frames(
                    image,
                    cmd.src_frame,
                    cmd.dst_frame,
                    cmd.src_x,
                    cmd.src_y,
                    cmd.dst_x,
                    cmd.dst_y,
                    cmd.width,
                    cmd.height,
                    cmd.compose_mode,
                );
                proof {
                    lemma_compose_keeps_size(before, *image, r, cmd);
                    rr = r;
                }
                match r {
                    Ok(_) => {
                        push_kitty_reply(out, quiet, id, true, &[]);
                        proof {
                            reply_g = quiet_reply(quiet, id, true, seq![]);
                            assert(Seq::<u8>::empty() =~= seq![]);
                        }
                    },
                    Err(e) => {
                        let msg = compose_error_bytes(e);
                        push_kitty_reply(out, quiet, id, false, msg.as_slice());
                        proof {
                            reply_g = quiet_reply(quiet, id, false, compose_error_text(e));
                        }
                    },
                }
            }
            proof {
                n = *image;
                lemma_map_bytes_replace(m, id, *image);
            }
        },
    }
    proof {
        assert(out@.take(o.len() as int) =~= o);
        assert(Seq::<u8>::empty() =~= seq![]);
        if m.contains_key(id) {
            assert(images@ == m.insert(id, n));
            if !fits_g {
                assert(n == m[id]);
                assert(m.insert(id, n) =~= m);
            } else {
                assert(compose_outcome(
                    m[id],
                    n,
                    rr,
                    cmd.src_frame,
                    cmd.dst_frame,
                    cmd.src_x,
                    cmd.src_y,
                    cmd.dst_x,
                    cmd.dst_y,
                    cmd.width,
                    cmd.height,
                    cmd.compose_mode,
                ));
            }
        }
        assert(out@ == o + reply_g);
        assert(out@.skip(o.len() as int) =~= reply_g);
        assert(compose_applied(m, images@, cmd, quiet, reply_g));
    }
}

/// Whether the frames of `image` are large enough for a composition with
/// these arguments.
fn compose_check(
    image: &TerminalImage,
    src_frame: u32,
    dst_frame: u32,
    src_x: u32,
    src_y: u32,
    dst_x: u32,
    dst_y: u32,
    width: u32,
    height: u32,
) -> (r: bool)
    ensures
        r == compose_fits(*image, src_frame, dst_frame, src_x, src_y, dst_x, dst_y, width, height),
{
    let w = image.width;
    let h = image.height;
    if !(src_x < w && src_y < h && dst_x < w && dst_y < h) {
        return true;
    }
    let a = if width <= w - src_x {
        width
    } else {
        w - src_x
    };
    let cw = if a <= w - dst_x {
        a
    } else {
        w - dst_x
    };
    let b = if height <= h - src_y {
        height
    } else {
        h - src_y
    };
    let ch = if b <= h - dst_y {
        b
    } else {
        h - dst_y
    };
    let src_ok = match frame_len(image, src_frame) {
        Some(len) => rect_within(len, w, src_x, src_y, cw, ch),
        None => true,
    };
    let dst_ok = match frame_len(image, dst_frame) {
        Some(len) => rect_within(len, w, dst_x, dst_y, cw, ch),
        None => true,
    };
    src_ok && dst_ok
}

/// The length of the bytes of frame `frame`, if it exists.
fn frame_len(image: &TerminalImage, frame: u32) -> (r: Option<usize>)
    ensures
        r is Some == frame_bytes(*image, frame) is Some,
        r matches Some(l) ==> l == frame_bytes(*image, frame).unwrap().len(),
{
    if frame == 1 {
        Some(image.data.len())
    } else if frame >= 2 && ((frame - 2) as usize) < image.frames.len() {
        Some(image.frames[(frame - 2) as usize].data.len())
    } else {
        None
    }
}

/// Whether a `cw` by `ch` rectangle at (`x`, `y`) lies within `len` bytes
/// of an image `w` pixels wide.
fn rect_within(len: usize, w: u32, x: u32, y: u32, cw: u32, ch: u32) -> (r: bool)
    requires
        x < w,
    ensures
        r == crate::terminal::compose::rect_fits(len as int, w as int, x as int, y as int, cw as int, ch as int),
{
    if cw == 0 || ch == 0 {
        return true;
    }
    let row = (y as u128) + (ch as u128) - 1;
    proof {
        assert(row * (w as u128) <= 0x2_0000_0000 * 0x1_0000_0000) by (nonlinear_arith)
            requires
                0 <= row < 0x2_0000_0000,
                0 <= w < 0x1_0000_0000,
        ;
    }
    let off = (row * (w as u128) + (x as u128) + (cw as u128) - 1) * 4 + 4;
    off <= len as u128
}

/// The image after an animation command.
pub open spec fn animated(old: TerminalImage, new: TerminalImage, cmd: KittyAnimationCmd) -> bool {
    let k = cmd.frame_number - 2;
    &&& new.id == old.id
    &&& new.width == old.width
    &&& new.height == old.height
    &&& new.data == old.data
    &&& new.current_loop == old.current_loop
    &&& new.animation_state == (if cmd.state == 1 {
        AnimationState::Stopped
    } else if cmd.state == 2 {
        AnimationState::Loading
    } else if cmd.state == 3 {
        AnimationState::Running
    } else {
        old.animation_state
    })
    &&& new.current_frame == (if cmd.current_frame > 0 {
        (cmd.current_frame - 1) as u32
    } else {
        old.current_frame
    })
    &&& new.loop_count == (if cmd.loop_count > 0 {
        cmd.loop_count
    } else {
        old.loop_count
    })
    &&& new.frames@ == (if cmd.frame_number > 1 && cmd.gap >= 0 && k < old.frames@.len() {
        old.frames@.update(k, ImageFrame { gap: cmd.gap as u32, ..old.frames@[k] })
    } else {
        old.frames@
    })
}

/// Applies an animation command.
pub(crate) fn apply_animation(images: &mut ImageRegistry, out: &mut Vec<u8>, cmd: KittyAnimationCmd, quiet: u8)
    requires
        old(images).wf(),
    ensures
        final(images).wf(),
        final(images).next_id_value() == old(images).next_id_value(),
        final(images).tracked_bytes() == old(images).tracked_bytes(),
        old(images)@.contains_key(cmd.image_id) ==> (exists|n: TerminalImage| #[trigger]
            animated(old(images)@[cmd.image_id], n, cmd) && final(images)@ == old(images)@.insert(
                cmd.image_id,
                n,
            )) && final(out)@ == old(out)@ + quiet_reply(quiet, cmd.image_id, true, seq![]),
        !old(images)@.contains_key(cmd.image_id) ==> final(images)@ == old(images)@ && final(out)@
            == old(out)@ + quiet_reply(quiet, cmd.image_id, false, "ENOENT:image not found".spec_bytes()),
{
    let id = cmd.image_id;
    let ghost m = images@;
    proof {
        images.lemma_view_finite();
    }
    match images.get_mut(id) {
        None => {
            push_kitty_reply(out, quiet, id, false, "ENOENT:image not found".as_bytes());
        },
        Some(image) => {
            let ghost before = *image;
            if cmd.state == 1 {
                image.animation_state = AnimationState::Stopped;
            } else if cmd.state == 2 {
                image.animation_state = AnimationState::Loading;
            } else if cmd.state == 3 {
                image.animation_state = AnimationState::Running;
            }
            if cmd.current_frame > 0 {
                image.current_frame = cmd.current_frame - 1;
            }
            if cmd.loop_count > 0 {
                image.loop_count = cmd.loop_count;
            }
            if cmd.frame_number > 1 && cmd.gap >= 0 {
                let k = (cmd.frame_number - 2) as usize;
                if k < image.frames.len() {
                    image.frames[k].gap = cmd.gap as u32;
                }
            }
            proof {
                assert(animated(before, *image, cmd));
                assert forall|j: int| 0 <= j < before.frames@.len() implies #[trigger] image.frames@[j].data@.len()
                    == before.frames@[j].data@.len() by {}
                lemma_frames_bytes_same_lens(image.frames@, before.frames@, before.frames@.len() as int);
                lemma_map_bytes_replace(m, id, *image);
            }
            push_kitty_reply(out, quiet, id, true, &[]);
        },
    }
    proof {
        assert(Seq::<u8>::empty() =~= seq![]);
    }
}

/// A copy of `v`.
fn copy_bytes(v: &Vec<u8>) -> (r: Vec<u8>)
    ensures
        r@ == v@,
{
    let mut r: Vec<u8> = Vec::new();
    let mut i: usize = 0;
    while i < v.len()
        invariant
            0 <= i <= v.len(),
            r@ == v@.take(i as int),
        decreases v.len() - i,
    {
        r.push(v[i]);
        i = i + 1;
        proof {
            assert(r@ =~= v@.take(i as int));
        }
    }
    proof {
        assert(v@.take(v@.len() as int) =~= v@);
    }
    r
}

// ============================================================================
// Decoded commands applied to the terminal
// ============================================================================
impl Terminal {
    /// Every field but the grid, the images, the image IDs to re-upload and
    /// the replies owed is as in `other`.
    pub open spec fn same_apart_from_graphics(&self, other: Terminal) -> bool {
        &&& self.scroll_offset == other.scroll_offset
        &&& self.selection == other.selection
        &&& self.clipboard == other.clipboard
        &&& self.clipboard_changed == other.clipboard_changed
        &&& self.dcs_handler == other.dcs_handler
        &&& self.apc_state == other.apc_state
        &&& self.apc_buffer == other.apc_buffer
        &&& self.cell_width == other.cell_width
        &&& self.cell_height == other.cell_height
        &&& self.search == other.search
        &&& self.copy_mode == other.copy_mode
        &&& self.current_directory == other.current_directory
        &&& self.notifications == other.notifications
        &&& self.notification_seq == other.notification_seq
        &&& self.notifications_enabled == other.notifications_enabled
        &&& self.active_progress == other.active_progress
        &&& self.pending_notifications == other.pending_notifications
        &&& self.allow_kitty_remote == other.allow_kitty_remote
    }
}

/// What applying a decoded Kitty command does to the terminal `old`,
/// giving `new`; `action` is the command's action and `quiet` its quiet
/// level.
pub open spec fn result_applied(
    old: Terminal,
    new: Terminal,
    result: KittyDecodeResult,
    action: KittyAction,
    quiet: u8,
) -> bool {
    &&& new.same_apart_from_graphics(old)
    &&& new.kitty_decoder == old.kitty_decoder
    &&& match result {
        KittyDecodeResult::Image(img) => {
            let replaced = old.images@.contains_key(img.id);
            &&& exists|t: TerminalImage| #[trigger]
                fresh_image(t, img) && new.images@ == registered(old.images@, t)
            &&& new.images.next_id_value() == (if img.id >= old.images.next_id_value() {
                vstd::wrapping::u32_specs::wrapping_add(img.id, 1)
            } else {
                old.images.next_id_value()
            })
            &&& new.grid@ == image_shown(
                old.grid@,
                replaced,
                img,
                action == KittyAction::TransmitAndDisplay,
                old.cell_width,
                old.cell_height,
            )
            &&& new.dirty_image_ids@ == (if replaced {
                old.dirty_image_ids@.push(img.id)
            } else {
                old.dirty_image_ids@
            })
            &&& new.pty_response@ == old.pty_response@ + quiet_reply(quiet, img.id, true, seq![])
        },
        KittyDecodeResult::Frame(fd) => {
            &&& frame_outcome(old.images, new.images, fd)
            &&& new.images.next_id_value() == old.images.next_id_value()
            &&& new.grid == old.grid
            &&& new.dirty_image_ids == old.dirty_image_ids
            &&& new.pty_response@ == old.pty_response@ + frame_reply(old.images@, fd, quiet)
        },
        KittyDecodeResult::Compose(cmd) => {
            &&& compose_applied(
                old.images@,
                new.images@,
                cmd,
                quiet,
                new.pty_response@.skip(old.pty_response@.len() as int),
            )
            &&& new.pty_response@.take(old.pty_response@.len() as int) == old.pty_response@
            &&& new.images.next_id_value() == old.images.next_id_value()
            &&& new.grid == old.grid
            &&& new.dirty_image_ids == old.dirty_image_ids
        },
        KittyDecodeResult::Animation(cmd) => {
            &&& (old.images@.contains_key(cmd.image_id) ==> (exists|n: TerminalImage| #[trigger]
                animated(old.images@[cmd.image_id], n, cmd) && new.images@ == old.images@.insert(
                    cmd.image_id,
                    n,
                )) && new.pty_response@ == old.pty_response@ + quiet_reply(
                quiet,
                cmd.image_id,
                true,
                seq![],
            ))
            &&& (!old.images@.contains_key(cmd.image_id) ==> new.images@ == old.images@
                && new.pty_response@ == old.pty_response@ + quiet_reply(
                quiet,
                cmd.image_id,
                false,
                "ENOENT:image not found".spec_bytes(),
            ))
            &&& new.images.next_id_value() == old.images.next_id_value()
            &&& new.grid == old.grid
            &&& new.dirty_image_ids == old.dirty_image_ids
        },
    }
}

/// Whether a command with parameters `p` and payload `raw`, finished on
/// the terminal `old`, has its payload read from outside: a data-carrying
/// command sent by file, temporary file or shared memory, with remote
/// transfers allowed and a well-formed path or name.
pub open spec fn needs_outside_read(old: Terminal, p: KittyParams, raw: Seq<u8>) -> bool {
    &&& !is_dataless(p.action)
    &&& p.action != KittyAction::Display
    &&& p.action != KittyAction::Query
    &&& !(p.format == KittyFormat::Rgb && rgb_padding_overflows(p.width, p.height))
    &&& p.transmission != KittyTransmission::Direct
    &&& load_error(p.transmission, raw, old.allow_kitty_remote) is None
}

/// What completing the command in progress does to the terminal `old`,
/// giving `new`, when the decoder held parameters `p` and payload `raw`;
/// `load` is what is handed back to be read from outside.
pub open spec fn command_finished(
    old: Terminal,
    new: Terminal,
    p: KittyParams,
    raw: Seq<u8>,
    load: Option<KittyPendingLoad>,
) -> bool {
    let id = command_id(p, old.images.next_id_value());
    if needs_outside_read(old, p, raw) {
        &&& new == Terminal { kitty_decoder: None, ..old }
        &&& load matches Some(l) && l.params == p && l.id == id && load_outcome(
            p.transmission,
            raw,
            old.allow_kitty_remote,
            Ok(l.request),
        )
    } else {
        load is None && command_completed(old, new, p, raw)
    }
}

/// What completing the command in progress does to the terminal `old`,
/// giving `new`, when the decoder held parameters `p` and payload `raw` and
/// nothing is to be read from outside.
pub open spec fn command_completed(old: Terminal, new: Terminal, p: KittyParams, raw: Seq<u8>) -> bool {
    let id = command_id(p, old.images.next_id_value());
    let same_rest = new.same_apart_from_graphics(old) && new.kitty_decoder is None;
    match p.action {
        KittyAction::Delete => {
            &&& same_rest
            &&& new.dirty_image_ids == old.dirty_image_ids
            &&& new.pty_response == old.pty_response
            &&& new.images.next_id_value() == old.images.next_id_value()
            &&& if p.delete_target == Some('a') || p.delete_target == Some('A') {
                new.images@ == Map::<u32, TerminalImage>::empty() && new.grid@ == GridModel {
                    placements: seq![],
                    ..old.grid@
                }
            } else if p.delete_target == Some('i') || p.delete_target == Some('I') {
                new.images@ == old.images@.remove(id) && new.grid@ == GridModel {
                    placements: apply_rule_all(PlacementRule::NotId(id), old.grid@.placements),
                    ..old.grid@
                }
            } else {
                new.images == old.images && new.grid == old.grid
            }
        },
        KittyAction::Display => {
            &&& same_rest
            &&& new.dirty_image_ids == old.dirty_image_ids
            &&& new.pty_response == old.pty_response
            &&& new.images == old.images
            &&& new.grid@ == (if old.images@.contains_key(id) {
                image_placed(
                    old.grid@,
                    id,
                    old.images@[id].width,
                    old.images@[id].height,
                    old.cell_width,
                    old.cell_height,
                    p.do_not_move_cursor,
                )
            } else {
                old.grid@
            })
        },
        KittyAction::Query => {
            &&& same_rest
            &&& new.dirty_image_ids == old.dirty_image_ids
            &&& new.images == old.images
            &&& new.grid == old.grid
            &&& new.pty_response@ == old.pty_response@ + quiet_reply(p.quiet, id, true, seq![])
        },
        _ => if p.format == KittyFormat::Rgb && rgb_padding_overflows(p.width, p.height) {
            &&& same_rest
            &&& new.dirty_image_ids == old.dirty_image_ids
            &&& new.images == old.images
            &&& new.grid == old.grid
            &&& new.pty_response@ == old.pty_response@ + quiet_reply(
                p.quiet,
                id,
                false,
                "RGB dimensions too large".spec_bytes(),
            )
        } else {
            exists|r: Result<KittyDecodeResult, String>|
                #[trigger] finish_outcome(p, raw, old.images.next_id_value(), old.allow_kitty_remote, r)
                    && match r {
                    Ok(result) => result_applied(
                        Terminal { kitty_decoder: None, ..old },
                        new,
                        result,
                        p.action,
                        p.quiet,
                    ),
                    Err(e) => {
                        &&& same_rest
                        &&& new.dirty_image_ids == old.dirty_image_ids
                        &&& new.images == old.images
                        &&& new.grid == old.grid
                        &&& new.pty_response@ == old.pty_response@ + quiet_reply(
                            p.quiet,
                            id,
                            false,
                            vstd::utf8::encode_utf8(e@),
                        )
                    },
                }
        },
    }
}

/// `w * h * 3` fits but `w * h * 4` does not.
fn rgb_padding_check(w: u32, h: u32) -> (r: bool)
    ensures
        r == rgb_padding_overflows(w, h),
{
    match (w as usize).checked_mul(h as usize) {
        None => {
            proof {
                assert(w * h * 3 > usize::MAX) by (nonlinear_arith)
                    requires
                        w * h > usize::MAX,
                ;
            }
            false
        },
        Some(wh) => match wh.checked_mul(3) {
            None => false,
            Some(_) => wh.checked_mul(4).is_none(),
        },
    }
}

impl Terminal {
    /// Applies a decoded Kitty command: images are registered (and shown
    /// for transmit-and-display), frames stored, frames composed and
    /// animations controlled; the reply is appended to `pty_response`.
    pub fn handle_kitty_result(&mut self, result: KittyDecodeResult, action: KittyAction, quiet: u8)
        requires
            old(self).wf(),
        ensures
            final(self).wf(),
            result_applied(*old(self), *final(self), result, action, quiet),
    {
        match result {
            KittyDecodeResult::Image(img) => {
                let display = match action {
                    KittyAction::TransmitAndDisplay => true,
                    _ => false,
                };
                store_image(
                    &mut self.images,
                    &mut self.grid,
                    &mut self.dirty_image_ids,
                    &mut self.pty_response,
                    img,
                    display,
                    quiet,
                    self.cell_width,
                    self.cell_height,
                );
            },
            KittyDecodeResult::Frame(fd) => {
                store_frame(&mut self.images, &mut self.pty_response, fd, quiet);
            },
            KittyDecodeResult::Compose(cmd) => {
                apply_compose(&mut self.images, &mut self.pty_response, cmd, quiet);
            },
            KittyDecodeResult::Animation(cmd) => {
                apply_animation(&mut self.images, &mut self.pty_response, cmd, quiet);
            },
        }
    }

    /// Completes the Kitty command in progress, if any: deletes, displays,
    /// answers queries, or decodes the payload and applies the result. A
    /// payload that has to be read from a file or shared memory is handed
    /// back instead, to be read and passed to
    /// [`Terminal::complete_kitty_load`].
    pub fn finish_kitty_decode(&mut self) -> (load: Option<KittyPendingLoad>)
        requires
            old(self).wf(),
        ensures
            final(self).wf(),
            match old(self).kitty_decoder {
                None => *final(self) == *old(self) && load is None,
                Some(d) => command_finished(*old(self), *final(self), d.spec_params(), d.buffered(), load),
            },
    {
        let taken = self.kitty_decoder.take();
        let decoder = match taken {
            None => {
                return None;
            },
            Some(d) => d,
        };
        let p = *decoder.params();
        let next = self.images.next_id();
        let id = if p.id != 0 {
            p.id
        } else {
            next
        };
        match p.action {
            KittyAction::Delete => {
                match p.delete_target {
                    Some(c) => {
                        if c == 'a' || c == 'A' {
                            self.images.clear();
                            self.grid.clear_image_placements();
                        } else if c == 'i' || c == 'I' {
                            self.images.remove(id);
                            self.grid.remove_placements_of(id);
                        }
                    },
                    None => {},
                }
                None
            },
            KittyAction::Display => {
                match self.images.get(id) {
                    Some(image) => {
                        let w = image.width;
                        let h = image.height;
                        self.grid.place_image(
                            id,
                            w,
                            h,
                            self.cell_width,
                            self.cell_height,
                            p.do_not_move_cursor,
                        );
                    },
                    None => {},
                }
                None
            },
            KittyAction::Query => {
                push_kitty_reply(&mut self.pty_response, p.quiet, id, true, &[]);
                proof {
                    assert(Seq::<u8>::empty() =~= seq![]);
                }
                None
            },
            _ => {
                let is_rgb = match p.format {
                    KittyFormat::Rgb => true,
                    _ => false,
                };
                if is_rgb && rgb_padding_check(p.width, p.height) {
                    push_kitty_reply(
                        &mut self.pty_response,
                        p.quiet,
                        id,
                        false,
                        "RGB dimensions too large".as_bytes(),
                    );
                    return None;
                }
                let ghost raw = decoder.buffered();
                match decoder.finish_step(next, self.allow_kitty_remote) {
                    KittyFinish::Done(r) => {
                        assert(finish_outcome(p, raw, next, self.allow_kitty_remote, r));
                        match r {
                            Ok(result) => {
                                self.handle_kitty_result(result, p.action, p.quiet);
                            },
                            Err(e) => {
                                push_kitty_reply(&mut self.pty_response, p.quiet, id, false, e.as_str().as_bytes());
                            },
                        }
                        None
                    },
                    KittyFinish::Load { params, id, request } => {
                        Some(KittyPendingLoad { params, id, request })
                    },
                }
            },
        }
    }

    /// Completes a command whose payload was read from outside: `read` is
    /// the payload, or the error the read reported. The result is applied
    /// as for a direct payload, or the error is replied.
    pub fn complete_kitty_load(&mut self, load: KittyPendingLoad, read: Result<Vec<u8>, String>)
        requires
            old(self).wf(),
        ensures
            final(self).wf(),
            load_completed(*old(self), *final(self), load, read),
    {
        let p = load.params;
        let id = load.id;
        let is_rgb = match p.format {
            KittyFormat::Rgb => true,
            _ => false,
        };
        if is_rgb && rgb_padding_check(p.width, p.height) {
            push_kitty_reply(&mut self.pty_response, p.quiet, id, false, "RGB dimensions too large".as_bytes());
            return;
        }
        match finish_loaded(&p, id, read) {
            Ok(result) => {
                self.handle_kitty_result(result, p.action, p.quiet);
            },
            Err(e) => {
                push_kitty_reply(&mut self.pty_response, p.quiet, id, false, e.as_str().as_bytes());
            },
        }
    }
}

/// What completing the command `load`, whose payload read gave `read`,
/// does to the terminal `old`, giving `new`.
pub open spec fn load_completed(old: Terminal, new: Terminal, load: KittyPendingLoad, read: Result<Vec<u8>, String>) -> bool {
    let p = load.params;
    let id = load.id;
    let same_rest = new.same_apart_from_graphics(old) && new.kitty_decoder == old.kitty_decoder;
    if p.format == KittyFormat::Rgb && rgb_padding_overflows(p.width, p.height) {
        &&& same_rest
        &&& new.dirty_image_ids == old.dirty_image_ids
        &&& new.images == old.images
        &&& new.grid == old.grid
        &&& new.pty_response@ == old.pty_response@ + quiet_reply(
            p.quiet,
            id,
            false,
            "RGB dimensions too large".spec_bytes(),
        )
    } else {
        exists|r: Result<KittyDecodeResult, String>|
            #[trigger] loaded_outcome(p, id, read, r) && match r {
                Ok(result) => result_applied(old, new, result, p.action, p.quiet),
                Err(e) => {
                    &&& same_rest
                    &&& new.dirty_image_ids == old.dirty_image_ids
                    &&& new.images == old.images
                    &&& new.grid == old.grid
                    &&& new.pty_response@ == old.pty_response@ + quiet_reply(
                        p.quiet,
                        id,
                        false,
                        vstd::utf8::encode_utf8(e@),
                    )
                },
            }
    }
}

// ============================================================================
// APC sequences
// ============================================================================
/// The decoder `d` after one chunk `payload` given to the decoder `d0` (a
/// new one when there is none), and whether the command is complete.
pub open spec fn chunk_processed(d0: Option<KittyDecoder>, payload: Seq<u8>, d: KittyDecoder, done: bool) -> bool {
    let (p0, b0, first0) = match d0 {
        Some(x) => (x.spec_params(), x.buffered(), x.awaits_first_chunk()),
        None => (default_params(), Seq::<u8>::empty(), true),
    };
    if !valid_utf8(payload) {
        done && d.spec_params() == p0 && d.buffered() == b0 && d.awaits_first_chunk() == first0
    } else {
        &&& d.spec_params() == apply_control(p0, control_part(payload), !first0)
        &&& !d.awaits_first_chunk()
        &&& d.buffered() == accumulate(b0, payload_part(payload))
        &&& done == !d.spec_params().more
    }
}

/// What a complete APC sequence with body `old.apc_buffer` does: a Kitty
/// graphics chunk (`G...`) goes to the decoder, and a complete command is
/// finished (`load` being what is to be read from outside); anything else
/// is ignored.
pub open spec fn apc_processed(old: Terminal, new: Terminal, load: Option<KittyPendingLoad>) -> bool {
    let buf = old.apc_buffer@;
    if buf.len() == 0 || buf[0] != 0x47 {
        new == old && load is None
    } else {
        exists|d: KittyDecoder, done: bool|
            #[trigger] chunk_processed(old.kitty_decoder, buf.skip(1), d, done) && if done {
                command_finished(
                    Terminal { kitty_decoder: Some(d), ..old },
                    new,
                    d.spec_params(),
                    d.buffered(),
                    load,
                )
            } else {
                new == Terminal { kitty_decoder: Some(d), ..old } && load is None
            }
    }
}

impl Terminal {
    /// Handles a complete APC sequence whose body is in `apc_buffer`.
    pub fn process_apc(&mut self) -> (load: Option<KittyPendingLoad>)
        requires
            old(self).wf(),
        ensures
            final(self).wf(),
            apc_processed(*old(self), *final(self), load),
    {
        if self.apc_buffer.len() == 0 || self.apc_buffer[0] != 0x47 {
            return None;
        }
        let payload = crate::terminal::kitty::slice_range(self.apc_buffer.as_slice(), 1, self.apc_buffer.len());
        proof {
            assert(payload@ =~= self.apc_buffer@.skip(1));
        }
        let ghost d0 = self.kitty_decoder;
        let mut decoder = match self.kitty_decoder.take() {
            Some(d) => d,
            None => KittyDecoder::new(),
        };
        let (done, response) = decoder.process(payload.as_slice());
        match response {
            Some(resp) => {
                push_all(&mut self.pty_response, resp.as_slice());
            },
            None => {},
        }
        let ghost d = decoder;
        proof {
            assert(chunk_processed(d0, payload@, d, done));
        }
        self.kitty_decoder = Some(decoder);
        if done {
            self.finish_kitty_decode()
        } else {
            None
        }
    }
}

/// Whether `buf` holds `ESC _` (the start of an APC sequence).
pub fn has_esc_underscore(buf: &[u8]) -> (r: bool)
    ensures
        r == exists|i: int| 0 <= i < buf@.len() - 1 && buf@[i] == 0x1b && #[trigger] buf@[i + 1] == 0x5f,
{
    if buf.len() < 2 {
        return false;
    }
    let mut i: usize = 0;
    while i < buf.len() - 1
        invariant
            buf@.len() >= 2,
            0 <= i <= buf@.len() - 1,
            forall|j: int| 0 <= j < i ==> !(buf@[j] == 0x1b && #[trigger] buf@[j + 1] == 0x5f),
        decreases buf.len() - 1 - i,
    {
        if buf[i] == 0x1b && buf[i + 1] == 0x5f {
            return true;
        }
        i = i + 1;
    }
    false
}

/// One byte of program output seen by the APC recogniser in state
/// `state` with body so far `buf`: the new state and body, the bytes to
/// hand to the VT parser, and whether an APC sequence just ended (ST as
/// `ESC \` or the single byte 0x9c).
pub open spec fn apc_next(state: ApcState, buf: Seq<u8>, byte: u8) -> (ApcState, Seq<u8>, Seq<u8>, bool) {
    match state {
        ApcState::Normal => if byte == 0x1b {
            (ApcState::Escape, buf, seq![], false)
        } else {
            (ApcState::Normal, buf, seq![byte], false)
        },
        ApcState::Escape => if byte == 0x5f {
            (ApcState::InApc, seq![], seq![], false)
        } else {
            (ApcState::Normal, buf, seq![0x1bu8, byte], false)
        },
        ApcState::InApc => if byte == 0x1b {
            (ApcState::ApcEscape, buf, seq![], false)
        } else if byte == 0x9c {
            (ApcState::Normal, buf, seq![], true)
        } else if buf.len() < MAX_APC_BUFFER_SIZE {
            (ApcState::InApc, buf.push(byte), seq![], false)
        } else {
            (ApcState::InApc, buf, seq![], false)
        },
        ApcState::ApcEscape => if byte == 0x5c {
            (ApcState::Normal, buf, seq![], true)
        } else if byte == 0x1b {
            (ApcState::ApcEscape, buf.push(0x1b), seq![], false)
        } else {
            (ApcState::InApc, buf.push(0x1b).push(byte), seq![], false)
        },
    }
}

impl Terminal {
    /// Feeds one byte of program output through the APC recogniser. APC
    /// sequences are collected and handled here; the bytes returned are to
    /// be handed, in order, to the VT parser, and a Kitty payload to be read
    /// from outside is handed back with them.
    pub fn apc_feed(&mut self, byte: u8) -> (r: (Vec<u8>, Option<KittyPendingLoad>))
        requires
            old(self).wf(),
        ensures
            final(self).wf(),
            ({
                let (state, buf, fwd, ended) = apc_next(old(self).apc_state, old(self).apc_buffer@, byte);
                &&& r.0@ == fwd
                &&& if ended {
                    apc_processed(Terminal { apc_state: ApcState::Normal, ..*old(self) }, *final(self), r.1)
                } else {
                    &&& final(self).apc_state == state
                    &&& final(self).apc_buffer@ == buf
                    &&& final(self).same_apart_from_apc(*old(self))
                    &&& r.1 is None
                }
            }),
    {
        let mut forward: Vec<u8> = Vec::new();
        let mut load: Option<KittyPendingLoad> = None;
        match self.apc_state {
            ApcState::Normal => {
                if byte == 0x1b {
                    self.apc_state = ApcState::Escape;
                } else {
                    forward.push(byte);
                }
            },
            ApcState::Escape => {
                if byte == 0x5f {
                    self.apc_state = ApcState::InApc;
                    self.apc_buffer.clear();
                } else {
                    self.apc_state = ApcState::Normal;
                    forward.push(0x1b);
                    forward.push(byte);
                }
            },
            ApcState::InApc => {
                if byte == 0x1b {
                    self.apc_state = ApcState::ApcEscape;
                } else if byte == 0x9c {
                    self.apc_state = ApcState::Normal;
                    load = self.process_apc();
                } else if self.apc_buffer.len() < MAX_APC_BUFFER_SIZE {
                    self.apc_buffer.push(byte);
                }
            },
            ApcState::ApcEscape => {
                if byte == 0x5c {
                    self.apc_state = ApcState::Normal;
                    load = self.process_apc();
                } else {
                    self.apc_buffer.push(0x1b);
                    if byte == 0x1b {
                        self.apc_state = ApcState::ApcEscape;
                    } else {
                        self.apc_buffer.push(byte);
                        self.apc_state = ApcState::InApc;
                    }
                }
            },
        }
        proof {
            assert(forward@ =~= apc_next(old(self).apc_state, old(self).apc_buffer@, byte).2);
            assert(self.apc_buffer@ =~= apc_next(old(self).apc_state, old(self).apc_buffer@, byte).1
                || apc_next(old(self).apc_state, old(self).apc_buffer@, byte).3);
        }
        (forward, load)
    }

    /// Whether a chunk of program output needs the byte-by-byte APC path:
    /// an APC sequence is under way or starts in `buf`.
    pub fn needs_apc_path(&self, buf: &[u8]) -> (r: bool)
        ensures
            r == (self.apc_state != ApcState::Normal || exists|i: int|
                0 <= i < buf@.len() - 1 && buf@[i] == 0x1b && #[trigger] buf@[i + 1] == 0x5f),
    {
        match self.apc_state {
            ApcState::Normal => has_esc_underscore(buf),
            _ => true,
        }
    }

    /// After a chunk went straight to the VT parser: a chunk ending in ESC
    /// may continue as an APC sequence in the next chunk.
    pub fn end_direct_chunk(&mut self, buf: &[u8])
        ensures
            final(self).apc_state == (if buf@.len() > 0 && buf@.last() == 0x1b {
                ApcState::Escape
            } else {
                old(self).apc_state
            }),
            final(self).apc_buffer == old(self).apc_buffer,
            final(self).same_apart_from_apc(*old(self)),
    {
        if buf.len() > 0 && buf[buf.len() - 1] == 0x1b {
            self.apc_state = ApcState::Escape;
        }
    }

    /// Every field but the APC state and body is as in `other`.
    pub open spec fn same_apart_from_apc(&self, other: Terminal) -> bool {
        Terminal { apc_state: other.apc_state, apc_buffer: other.apc_buffer, ..*self } == other
    }
}

} // verus!
