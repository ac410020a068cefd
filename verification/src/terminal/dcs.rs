//! Device control strings (DCS): Sixel images, terminal capability
//! queries (XTGETTCAP) and setting requests (DECRQSS).

use vstd::prelude::*;
use vstd::string::StringSliceAdditionalSpecFns;
use vstd::utf8::{decode_utf8, encode_utf8, valid_utf8};

use crate::ascii::{split_bytes, split_ranges};
use crate::terminal::codec::{hex_decode, hex_decoded, hex_encode, hex_encoded};
use crate::terminal::grid::{image_placed, CursorStyle, Grid, GridModel};
use crate::terminal::graphics::{fresh_image, registered};
use crate::terminal::images::{AnimationState, ImageRegistry, TerminalImage};
use crate::terminal::kitty::{decimal, slice_range};
use crate::terminal::osc::utf8_lossy;
use crate::terminal::parser::{push_all, push_decimal_usize};
use crate::terminal::sixel::{
    finished_image, hls_resolved, initial_model, push_model, PaletteColor, SixelDecoder, SixelModel,
};
use crate::terminal::term::{DcsHandler, Terminal};

verus! {

/// Longest XTGETTCAP query kept (64 KiB).
pub const MAX_XTGETTCAP_BUFFER: usize = 65536;

/// Longest DECRQSS query kept.
pub const MAX_DECRQSS_BUFFER: usize = 256;

// ============================================================================
// Capabilities
// ============================================================================
/// The value of a terminfo capability this terminal reports, by name.
pub open spec fn termcap(name: Seq<char>) -> Option<Seq<u8>> {
    if name == "TN"@ {
        Some("bcon".spec_bytes())
    } else if name == "RGB"@ || name == "sixel"@ || name == "fullkbd"@ {
        Some("1".spec_bytes())
    } else if name == "Tc"@ || name == "Sync"@ || name == "focus"@ {
        Some(seq![])
    } else if name == "Co"@ || name == "colors"@ {
        Some("256".spec_bytes())
    } else if name == "Smulx"@ {
        Some(seq![0x1bu8] + "[4:%p1%dm".spec_bytes())
    } else if name == "Setulc"@ {
        Some(seq![0x1bu8] + "[58:2::%p1%d:%p2%d:%p3%dm".spec_bytes())
    } else if name == "Ss"@ {
        Some(seq![0x1bu8] + "[%p1%d q".spec_bytes())
    } else if name == "Se"@ {
        Some(seq![0x1bu8] + "[2 q".spec_bytes())
    } else if name == "Ms"@ {
        Some(seq![0x1bu8] + "]52;%p1%s;%p2%s".spec_bytes() + seq![0x1bu8, 0x5cu8])
    } else if name == "BE"@ {
        Some(seq![0x1bu8] + "[?2004h".spec_bytes())
    } else if name == "BD"@ {
        Some(seq![0x1bu8] + "[?2004l".spec_bytes())
    } else if name == "PS"@ {
        Some(seq![0x1bu8] + "[200~".spec_bytes())
    } else if name == "PE"@ {
        Some(seq![0x1bu8] + "[201~".spec_bytes())
    } else {
        None
    }
}

/// Whether the text `s` is the name `n`.
fn is_name(s: &String, n: &str) -> (r: bool)
    ensures
        r == (s@ == n@),
{
    let a = s.as_str().as_bytes();
    let b = n.as_bytes();
    proof {
        vstd::utf8::encode_utf8_decode_utf8(s@);
        vstd::utf8::encode_utf8_decode_utf8(n@);
        if s@ == n@ {
            assert(a@ == b@);
        }
        if a@ == b@ {
            assert(decode_utf8(a@) == decode_utf8(b@));
        }
    }
    if a.len() != b.len() {
        return false;
    }
    let mut i: usize = 0;
    while i < a.len()
        invariant
            a@.len() == b@.len(),
            0 <= i <= a@.len(),
            forall|j: int| 0 <= j < i ==> a@[j] == b@[j],
            s@ == n@ ==> a@ == b@,
            a@ == b@ ==> s@ == n@,
        decreases a@.len() - i,
    {
        if a[i] != b[i] {
            return false;
        }
        i = i + 1;
    }
    proof {
        assert(a@ =~= b@);
    }
    true
}

/// The capability value for `name`, as bytes.
fn termcap_value(name: &String) -> (r: Option<Vec<u8>>)
    ensures
        match (r, termcap(name@)) {
            (Some(v), Some(t)) => v@ == t,
            (None, None) => true,
            _ => false,
        },
{
    let mut v: Vec<u8> = Vec::new();
    if is_name(name, "TN") {
        push_all(&mut v, "bcon".as_bytes());
    } else if is_name(name, "RGB") || is_name(name, "sixel") || is_name(name, "fullkbd") {
        push_all(&mut v, "1".as_bytes());
    } else if is_name(name, "Tc") || is_name(name, "Sync") || is_name(name, "focus") {
    } else if is_name(name, "Co") || is_name(name, "colors") {
        push_all(&mut v, "256".as_bytes());
    } else if is_name(name, "Smulx") {
        v.push(0x1b);
        push_all(&mut v, "[4:%p1%dm".as_bytes());
    } else if is_name(name, "Setulc") {
        v.push(0x1b);
        push_all(&mut v, "[58:2::%p1%d:%p2%d:%p3%dm".as_bytes());
    } else if is_name(name, "Ss") {
        v.push(0x1b);
        push_all(&mut v, "[%p1%d q".as_bytes());
    } else if is_name(name, "Se") {
        v.push(0x1b);
        push_all(&mut v, "[2 q".as_bytes());
    } else if is_name(name, "Ms") {
        v.push(0x1b);
        push_all(&mut v, "]52;%p1%s;%p2%s".as_bytes());
        v.push(0x1b);
        v.push(0x5c);
    } else if is_name(name, "BE") {
        v.push(0x1b);
        push_all(&mut v, "[?2004h".as_bytes());
    } else if is_name(name, "BD") {
        v.push(0x1b);
        push_all(&mut v, "[?2004l".as_bytes());
    } else if is_name(name, "PS") {
        v.push(0x1b);
        push_all(&mut v, "[200~".as_bytes());
    } else if is_name(name, "PE") {
        v.push(0x1b);
        push_all(&mut v, "[201~".as_bytes());
    } else {
        return None;
    }
    proof {
        assert(v@ =~= termcap(name@).unwrap());
    }
    Some(v)
}

/// The reply to one XTGETTCAP query piece `p` (hex-encoded name): `DCS 1
/// + r p = hex(value) ST` for a known capability, `DCS 0 + r p ST`
/// otherwise; empty pieces are skipped.
pub open spec fn tcap_piece_reply(p: Seq<u8>) -> Seq<u8> {
    if p.len() == 0 {
        seq![]
    } else {
        match termcap(utf8_lossy(hex_decoded(p))) {
            Some(v) => seq![0x1bu8, 0x50u8, 0x31u8, 0x2bu8, 0x72u8] + p + seq![0x3du8] + hex_encoded(v)
                + seq![0x1bu8, 0x5cu8],
            None => seq![0x1bu8, 0x50u8, 0x30u8, 0x2bu8, 0x72u8] + p + seq![0x1bu8, 0x5cu8],
        }
    }
}

/// The replies to the first `n` pieces.
pub open spec fn tcap_replies(pieces: Seq<Seq<u8>>, n: int) -> Seq<u8>
    decreases n,
{
    if n <= 0 {
        seq![]
    } else {
        tcap_replies(pieces, n - 1) + tcap_piece_reply(pieces[n - 1])
    }
}

/// The reply to an XTGETTCAP query: the query text split at `;`, each
/// piece answered.
pub open spec fn xtgettcap_reply(query: Seq<u8>) -> Seq<u8> {
    let pieces = split_bytes(encode_utf8(utf8_lossy(query)), 0x3b);
    tcap_replies(pieces, pieces.len() as int)
}

/// DECRQSS: the reply to a request for the setting `query`.
pub open spec fn decrqss_reply(g: GridModel, query: Seq<u8>) -> Seq<u8> {
    let q = if valid_utf8(query) {
        query
    } else {
        seq![]
    };
    if q == seq![0x6du8] {
        seq![0x1bu8, 0x50u8, 0x31u8, 0x24u8, 0x72u8, 0x30u8, 0x6du8, 0x1bu8, 0x5cu8]
    } else if q == seq![0x72u8] {
        seq![0x1bu8, 0x50u8, 0x31u8, 0x24u8, 0x72u8] + decimal(g.scroll_top + 1) + seq![0x3bu8]
            + decimal(g.scroll_bottom + 1) + seq![0x72u8, 0x1bu8, 0x5cu8]
    } else if q == seq![0x20u8, 0x71u8] {
        seq![0x1bu8, 0x50u8, 0x31u8, 0x24u8, 0x72u8] + decimal(cursor_code(g) as nat) + seq![
            0x20u8,
            0x71u8,
            0x1bu8,
            0x5cu8,
        ]
    } else {
        seq![0x1bu8, 0x50u8, 0x30u8, 0x24u8, 0x72u8, 0x1bu8, 0x5cu8]
    }
}

/// The DECSCUSR number of the cursor appearance.
pub open spec fn cursor_code(g: GridModel) -> u8 {
    match g.cursor.style {
        CursorStyle::Block => if g.cursor.blink {
            1
        } else {
            2
        },
        CursorStyle::Underline => if g.cursor.blink {
            3
        } else {
            4
        },
        CursorStyle::Bar => if g.cursor.blink {
            5
        } else {
            6
        },
    }
}

/// Appends the replies to an XTGETTCAP query.
fn reply_xtgettcap(out: &mut Vec<u8>, query: &Vec<u8>)
    ensures
        final(out)@ == old(out)@ + xtgettcap_reply(query@),
{
    let text = crate::terminal::osc::lossy_string(query.as_slice());
    let qb = text.as_str().as_bytes();
    let pieces = split_ranges(qb, 0, qb.len(), 0x3b);
    let ghost split = split_bytes(qb@.subrange(0, qb@.len() as int), 0x3b);
    proof {
        assert(qb@.subrange(0, qb@.len() as int) =~= qb@);
        assert(qb@ == encode_utf8(utf8_lossy(query@)));
    }
    let ghost o = out@;
    let mut k: usize = 0;
    while k < pieces.len()
        invariant
            pieces@.len() == split.len(),
            split == split_bytes(qb@, 0x3b),
            forall|j: int|
                0 <= j < pieces@.len() ==> {
                    &&& (#[trigger] pieces@[j]).0 <= pieces@[j].1 <= qb@.len()
                    &&& qb@.subrange(pieces@[j].0 as int, pieces@[j].1 as int) == split[j]
                },
            0 <= k <= pieces@.len(),
            out@ == o + tcap_replies(split, k as int),
        decreases pieces@.len() - k,
    {
        let (s, e) = pieces[k];
        if e > s {
            let piece = slice_range(qb, s, e);
            let name_bytes = hex_decode(piece.as_slice());
            let name = crate::terminal::osc::lossy_string(name_bytes.as_slice());
            match termcap_value(&name) {
                Some(v) => {
                    push_all(out, &[0x1b, 0x50, 0x31, 0x2b, 0x72]);
                    push_all(out, piece.as_slice());
                    out.push(0x3d);
                    let hv = hex_encode(v.as_slice());
                    push_all(out, hv.as_slice());
                    push_all(out, &[0x1b, 0x5c]);
                },
                None => {
                    push_all(out, &[0x1b, 0x50, 0x30, 0x2b, 0x72]);
                    push_all(out, piece.as_slice());
                    push_all(out, &[0x1b, 0x5c]);
                },
            }
            proof {
                assert([0x1bu8, 0x50u8, 0x31u8, 0x2bu8, 0x72u8]@ =~= seq![0x1bu8, 0x50u8, 0x31u8, 0x2bu8, 0x72u8]);
                assert([0x1bu8, 0x50u8, 0x30u8, 0x2bu8, 0x72u8]@ =~= seq![0x1bu8, 0x50u8, 0x30u8, 0x2bu8, 0x72u8]);
                assert([0x1bu8, 0x5cu8]@ =~= seq![0x1bu8, 0x5cu8]);
                assert(out@ =~= o + tcap_replies(split, k + 1));
            }
        } else {
            proof {
                assert(out@ =~= o + tcap_replies(split, k + 1));
            }
        }
        k = k + 1;
    }
}

/// Appends the DECRQSS reply.
fn reply_decrqss(out: &mut Vec<u8>, grid: &Grid, query: &Vec<u8>)
    requires
        grid.wf(),
    ensures
        final(out)@ == old(out)@ + decrqss_reply(grid@, query@),
{
    let ghost o = out@;
    let valid = crate::utils::color::is_valid_utf8(query.as_slice());
    let n = query.len();
    if valid && n == 1 && query[0] == 0x6d {
        proof {
            assert(query@ =~= seq![0x6du8]);
        }
        push_all(out, &[0x1b, 0x50, 0x31, 0x24, 0x72, 0x30, 0x6d, 0x1b, 0x5c]);
    } else if valid && n == 1 && query[0] == 0x72 {
        proof {
            assert(query@ =~= seq![0x72u8]);
        }
        let (top, bottom) = grid.scroll_region();
        push_all(out, &[0x1b, 0x50, 0x31, 0x24, 0x72]);
        push_decimal_usize(out, top + 1);
        out.push(0x3b);
        push_decimal_usize(out, bottom + 1);
        push_all(out, &[0x72, 0x1b, 0x5c]);
    } else if valid && n == 2 && query[0] == 0x20 && query[1] == 0x71 {
        proof {
            assert(query@ =~= seq![0x20u8, 0x71u8]);
        }
        let blink = grid.cursor_blink();
        let code: u8 = match grid.cursor_style() {
            CursorStyle::Block => if blink {
                1
            } else {
                2
            },
            CursorStyle::Underline => if blink {
                3
            } else {
                4
            },
            CursorStyle::Bar => if blink {
                5
            } else {
                6
            },
        };
        push_all(out, &[0x1b, 0x50, 0x31, 0x24, 0x72]);
        push_decimal_usize(out, code as usize);
        push_all(out, &[0x20, 0x71, 0x1b, 0x5c]);
    } else {
        proof {
            if valid && query@ == seq![0x6du8] {
                assert(query@[0] == 0x6d);
            }
            if valid && query@ == seq![0x72u8] {
                assert(query@[0] == 0x72);
            }
            if valid && query@ == seq![0x20u8, 0x71u8] {
                assert(query@[0] == 0x20 && query@[1] == 0x71);
            }
        }
        push_all(out, &[0x1b, 0x50, 0x30, 0x24, 0x72, 0x1b, 0x5c]);
    }
    proof {
        assert(out@ =~= o + decrqss_reply(grid@, query@));
    }
}

// ============================================================================
// DCS hook, data and end
// ============================================================================
/// The intermediates of a Sixel DCS: none, or one digit.
pub open spec fn sixel_intro(inter: Seq<u8>) -> bool {
    inter.len() == 0 || (inter.len() == 1 && 0x30 <= inter[0] <= 0x39)
}

/// The handler a DCS sequence starts: Sixel (`q`, or `P q`), XTGETTCAP
/// (`+ q`) or DECRQSS (`$ q`); other sequences leave the handler alone.
pub open spec fn hook_outcome(old: Terminal, new: Terminal, inter: Seq<u8>, action: char) -> bool {
    &&& new == (Terminal { dcs_handler: new.dcs_handler, ..old })
    &&& if action == 'q' && sixel_intro(inter) {
        new.dcs_handler matches Some(DcsHandler::Sixel(d)) && d@ == initial_model() && d.wf()
    } else if action == 'q' && inter == seq![0x2bu8] {
        new.dcs_handler matches Some(DcsHandler::XtGetTcap(b)) && b@.len() == 0
    } else if action == 'q' && inter == seq![0x24u8] {
        new.dcs_handler matches Some(DcsHandler::Decrqss(b)) && b@.len() == 0
    } else {
        new.dcs_handler == old.dcs_handler
    }
}

/// The handler after one data byte: Sixel decodes it; the queries keep
/// it while under their length limits.
pub open spec fn put_outcome(old: Option<DcsHandler>, new: Option<DcsHandler>, byte: u8) -> bool {
    match old {
        Some(DcsHandler::Sixel(d)) => new matches Some(DcsHandler::Sixel(e)) && e@ == push_model(
            d@,
            byte,
        ),
        Some(DcsHandler::XtGetTcap(b)) => new matches Some(DcsHandler::XtGetTcap(c)) && c@ == (if b@.len()
            < MAX_XTGETTCAP_BUFFER {
            b@.push(byte)
        } else {
            b@
        }),
        Some(DcsHandler::Decrqss(b)) => new matches Some(DcsHandler::Decrqss(c)) && c@ == (if b@.len()
            < MAX_DECRQSS_BUFFER {
            b@.push(byte)
        } else {
            b@
        }),
        None => new is None,
    }
}

/// `t` is the registry entry of a decoded Sixel image.
pub open spec fn sixel_entry(t: TerminalImage, id: u32, w: u32, h: u32, data: Seq<u8>) -> bool {
    &&& t.id == id
    &&& t.width == w
    &&& t.height == h
    &&& t.data@ == data
    &&& t.frames@.len() == 0
    &&& t.animation_state == AnimationState::Stopped
    &&& t.current_frame == 0
    &&& t.loop_count == 0
    &&& t.current_loop == 0
}

/// What the end of a DCS sequence does: queries are answered, and a
/// decoded Sixel image is registered under the next ID and placed at the
/// cursor (moving it below the image).
pub open spec fn unhook_outcome(old: Terminal, new: Terminal) -> bool {
    match old.dcs_handler {
        None => new == old,
        Some(DcsHandler::XtGetTcap(b)) => new == (Terminal {
            dcs_handler: None,
            pty_response: new.pty_response,
            ..old
        }) && new.pty_response@ == old.pty_response@ + xtgettcap_reply(b@),
        Some(DcsHandler::Decrqss(b)) => new == (Terminal {
            dcs_handler: None,
            pty_response: new.pty_response,
            ..old
        }) && new.pty_response@ == old.pty_response@ + decrqss_reply(old.grid@, b@),
        Some(DcsHandler::Sixel(d)) => match finished_image(d@) {
            None => new == (Terminal { dcs_handler: None, ..old }),
            Some((w, h, data)) => {
                let id = old.images.next_id_value();
                &&& exists|t: TerminalImage| #[trigger]
                    sixel_entry(t, id, w, h, data) && new.images@ == registered(old.images@, t)
                &&& new.images.next_id_value() == vstd::wrapping::u32_specs::wrapping_add(id, 1)
                &&& new.grid@ == image_placed(
                    old.grid@,
                    id,
                    w,
                    h,
                    old.cell_width,
                    old.cell_height,
                    false,
                )
                &&& new == (Terminal {
                    dcs_handler: None,
                    images: new.images,
                    grid: new.grid,
                    ..old
                })
            },
        },
    }
}

impl Terminal {
    /// Starts a DCS sequence.
    pub fn hook(&mut self, intermediates: &[u8], action: char)
        requires
            old(self).wf(),
        ensures
            final(self).wf(),
            hook_outcome(*old(self), *final(self), intermediates@, action),
    {
        if action != 'q' {
            return;
        }
        let n = intermediates.len();
        if n == 0 || (n == 1 && intermediates[0] >= 0x30 && intermediates[0] <= 0x39) {
            self.dcs_handler = Some(DcsHandler::Sixel(SixelDecoder::new()));
        } else if n == 1 && intermediates[0] == 0x2b {
            proof {
                assert(intermediates@ =~= seq![0x2bu8]);
            }
            self.dcs_handler = Some(DcsHandler::XtGetTcap(Vec::new()));
        } else if n == 1 && intermediates[0] == 0x24 {
            proof {
                assert(intermediates@ =~= seq![0x24u8]);
            }
            self.dcs_handler = Some(DcsHandler::Decrqss(Vec::new()));
        } else {
            proof {
                if intermediates@ == seq![0x2bu8] || intermediates@ == seq![0x24u8] {
                    assert(intermediates@.len() == 1);
                }
            }
        }
    }

    /// One data byte of a DCS sequence.
    pub fn put(&mut self, byte: u8)
        requires
            old(self).wf(),
        ensures
            final(self).wf(),
            put_outcome(old(self).dcs_handler, final(self).dcs_handler, byte),
            *final(self) == (Terminal { dcs_handler: final(self).dcs_handler, ..*old(self) }),
    {
        match self.dcs_handler.take() {
            Some(DcsHandler::Sixel(mut d)) => {
                d.push(byte);
                self.dcs_handler = Some(DcsHandler::Sixel(d));
            },
            Some(DcsHandler::XtGetTcap(mut b)) => {
                if b.len() < MAX_XTGETTCAP_BUFFER {
                    b.push(byte);
                }
                self.dcs_handler = Some(DcsHandler::XtGetTcap(b));
            },
            Some(DcsHandler::Decrqss(mut b)) => {
                if b.len() < MAX_DECRQSS_BUFFER {
                    b.push(byte);
                }
                self.dcs_handler = Some(DcsHandler::Decrqss(b));
            },
            None => {},
        }
    }

    /// Ends a DCS sequence. A Sixel image must have its HLS palette
    /// entries converted to RGB first (see [`SixelDecoder::pending_hls`]).
    pub fn unhook(&mut self)
        requires
            old(self).wf(),
            old(self).dcs_handler matches Some(DcsHandler::Sixel(d)) ==> hls_resolved(d@),
        ensures
            final(self).wf(),
            unhook_outcome(*old(self), *final(self)),
    {
        match self.dcs_handler.take() {
            None => {},
            Some(DcsHandler::XtGetTcap(buffer)) => {
                reply_xtgettcap(&mut self.pty_response, &buffer);
            },
            Some(DcsHandler::Decrqss(buffer)) => {
                reply_decrqss(&mut self.pty_response, &self.grid, &buffer);
            },
            Some(DcsHandler::Sixel(decoder)) => {
                let id = self.images.next_id();
                match decoder.finish(id) {
                    None => {},
                    Some(img) => {
                        let w = img.width;
                        let h = img.height;
                        let t = TerminalImage {
                            id: img.id,
                            width: w,
                            height: h,
                            data: img.data,
                            frames: Vec::new(),
                            animation_state: AnimationState::Stopped,
                            current_frame: 0,
                            loop_count: 0,
                            current_loop: 0,
                        };
                        let n = t.data.len();
                        proof {
                            assert(crate::terminal::images::image_size(t) == n);
                        }
                        let ghost tv = t;
                        let img_id = self.images.insert(t);
                        self.grid.place_image(img_id, w, h, self.cell_width, self.cell_height, false);
                        proof {
                            assert(sixel_entry(tv, id, w, h, tv.data@));
                        }
                    },
                }
            },
        }
    }
}

impl Terminal {
    /// The palette entries of the Sixel image being received that still hold
    /// HLS definitions, as (index, hue, lightness, saturation); none when no
    /// Sixel image is being received.
    pub fn sixel_pending_hls(&self) -> (r: Vec<(u8, u32, u32, u32)>)
        requires
            self.wf(),
        ensures
            match self.dcs_handler {
                Some(DcsHandler::Sixel(d)) => {
                    &&& forall|k: int|
                        0 <= k < r@.len() ==> d@.palette[(#[trigger] r@[k]).0 as int]
                            == PaletteColor::Hls(r@[k].1, r@[k].2, r@[k].3)
                    &&& forall|i: int|
                        0 <= i < 256 && d@.palette[i] is Hls ==> exists|k: int|
                            0 <= k < r@.len() && (#[trigger] r@[k]).0 == i
                },
                _ => r@.len() == 0,
            },
    {
        match &self.dcs_handler {
            Some(DcsHandler::Sixel(d)) => d.pending_hls(),
            _ => Vec::new(),
        }
    }

    /// Sets palette entry `idx` of the Sixel image being received to an RGB
    /// colour (the conversion of its HLS definition).
    pub fn resolve_sixel_hls(&mut self, idx: u8, rgb: (u8, u8, u8))
        requires
            old(self).wf(),
        ensures
            final(self).wf(),
            *final(self) == (Terminal { dcs_handler: final(self).dcs_handler, ..*old(self) }),
            match old(self).dcs_handler {
                Some(DcsHandler::Sixel(d)) => final(self).dcs_handler matches Some(
                    DcsHandler::Sixel(e),
                ) && e@ == (SixelModel {
                    palette: d@.palette.update(idx as int, PaletteColor::Rgb(rgb.0, rgb.1, rgb.2)),
                    ..d@
                }),
                _ => final(self).dcs_handler == old(self).dcs_handler,
            },
    {
        match self.dcs_handler.take() {
            Some(DcsHandler::Sixel(mut d)) => {
                d.resolve_hls(idx, rgb);
                self.dcs_handler = Some(DcsHandler::Sixel(d));
            },
            other => {
                self.dcs_handler = other;
            },
        }
    }

    /// Whether [`Terminal::unhook`] is defined here: a Sixel image being
    /// received has no HLS palette entry left.
    pub fn unhook_is_defined(&self) -> (r: bool)
        requires
            self.wf(),
        ensures
            r == (self.dcs_handler matches Some(DcsHandler::Sixel(d)) ==> hls_resolved(d@)),
    {
        match &self.dcs_handler {
            Some(DcsHandler::Sixel(d)) => {
                let pending = d.pending_hls();
                proof {
                    if pending@.len() > 0 {
                        let e = pending@[0];
                        assert(d@.palette[e.0 as int] == PaletteColor::Hls(e.1, e.2, e.3));
                    } else {
                        assert forall|i: int| 0 <= i < d@.palette.len() implies (#[trigger] d@.palette[i]) is Rgb by {
                            if d@.palette[i] is Hls {
                                assert(exists|k: int| 0 <= k < pending@.len() && (#[trigger] pending@[k]).0 == i);
                            }
                        }
                    }
                }
                pending.len() == 0
            },
            _ => true,
        }
    }
}

} // verus!
