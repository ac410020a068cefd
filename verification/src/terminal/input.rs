//! What the terminal sends to the program on behalf of the user: mouse
//! reports in the X10 and SGR encodings, focus reports and pasted text.
//! Each function returns the bytes to write to the program; an empty
//! result means nothing is sent.

use vstd::prelude::*;

use crate::terminal::grid::{MouseMode, TerminalModes};
use crate::terminal::kitty::decimal;
use crate::terminal::parser::{push_all, push_decimal_usize};
use crate::terminal::term::Terminal;
use vstd::utf8::encode_utf8;

verus! {

/// A 0-based cell coordinate as mouse reports carry it: 1-based and
/// capped at 223, the largest the X10 encoding can hold.
pub open spec fn mouse_coord(n: nat) -> nat {
    if n < 222 {
        n + 1
    } else {
        223
    }
}

/// The report of button code `cb` at column `col`, row `row` (0-based).
/// SGR: `ESC [ < cb ; x ; y M` (press) or `m` (release), in decimal.
/// X10: `ESC [ M` then the code and both coordinates, each plus 32.
pub open spec fn mouse_report(sgr: bool, cb: u8, col: nat, row: nat, press: bool) -> Seq<u8> {
    let cx = mouse_coord(col);
    let cy = mouse_coord(row);
    if sgr {
        seq![0x1bu8, 0x5bu8, 0x3cu8] + decimal(cb as nat) + seq![0x3bu8] + decimal(cx) + seq![
            0x3bu8,
        ] + decimal(cy) + seq![
            if press {
                0x4du8
            } else {
                0x6du8
            },
        ]
    } else {
        seq![0x1bu8, 0x5bu8, 0x4du8, (cb + 32) as u8, (cx + 32) as u8, (cy + 32) as u8]
    }
}

/// What a button press sends under `m`: nothing while mouse tracking is off.
pub open spec fn press_report(m: TerminalModes, button: u8, col: nat, row: nat) -> Seq<u8> {
    if m.mouse_mode == MouseMode::Off {
        Seq::empty()
    } else {
        mouse_report(m.mouse_sgr, button, col, row, true)
    }
}

/// What a button release sends under `m`: in SGR the button itself with a
/// final `m`; in X10 the release code 3, which names no button.
pub open spec fn release_report(m: TerminalModes, button: u8, col: nat, row: nat) -> Seq<u8> {
    if m.mouse_mode == MouseMode::Off {
        Seq::empty()
    } else if m.mouse_sgr {
        mouse_report(true, button, col, row, false)
    } else {
        mouse_report(false, 3, col, row, true)
    }
}

/// Motion is reported in any-event mode, and in button-event mode while a
/// button is held.
pub open spec fn reports_motion(m: TerminalModes, held: Option<u8>) -> bool {
    m.mouse_mode == MouseMode::AnyEvent || (m.mouse_mode == MouseMode::ButtonEvent && held is Some)
}

/// What a pointer motion sends under `m`: code 32 plus the held button, or
/// 35 with no button held.
pub open spec fn motion_report(m: TerminalModes, col: nat, row: nat, held: Option<u8>) -> Seq<
    u8,
> {
    if reports_motion(m, held) {
        let cb: u8 = match held {
            Some(b) => (32 + b) as u8,
            None => 35u8,
        };
        mouse_report(m.mouse_sgr, cb, col, row, true)
    } else {
        Seq::empty()
    }
}

/// What a wheel step sends under `m`: code 64 upwards (negative delta),
/// 65 downwards.
pub open spec fn wheel_report(m: TerminalModes, delta: i8, col: nat, row: nat) -> Seq<u8> {
    if m.mouse_mode == MouseMode::Off {
        Seq::empty()
    } else {
        mouse_report(m.mouse_sgr, if delta < 0 { 64u8 } else { 65u8 }, col, row, true)
    }
}

/// The focus report: `ESC [ I` on gaining focus, `ESC [ O` on losing it,
/// sent only when the program asked for them.
pub open spec fn focus_report(m: TerminalModes, focused: bool) -> Seq<u8> {
    if m.send_focus_events {
        seq![0x1bu8, 0x5bu8, if focused { 0x49u8 } else { 0x4fu8 }]
    } else {
        Seq::empty()
    }
}

/// The bytes of a paste of `text`: the text's UTF-8 bytes, between
/// `ESC [ 200 ~` and `ESC [ 201 ~` in bracketed-paste mode; nothing for an
/// empty text.
pub open spec fn paste_bytes(bracketed: bool, text: Seq<char>) -> Seq<u8> {
    if text.len() == 0 {
        Seq::empty()
    } else if bracketed {
        seq![0x1bu8, 0x5bu8, 0x32u8, 0x30u8, 0x30u8, 0x7eu8] + encode_utf8(text) + seq![
            0x1bu8,
            0x5bu8,
            0x32u8,
            0x30u8,
            0x31u8,
            0x7eu8,
        ]
    } else {
        encode_utf8(text)
    }
}

/// Builds the report of [`mouse_report`].
pub fn mouse_report_bytes(sgr: bool, cb: u8, col: usize, row: usize, press: bool) -> (r: Vec<u8>)
    requires
        !sgr ==> cb + 32 <= 255,
    ensures
        r@ == mouse_report(sgr, cb, col as nat, row as nat, press),
{
    let cx: usize = if col < 222 {
        col + 1
    } else {
        223
    };
    let cy: usize = if row < 222 {
        row + 1
    } else {
        223
    };
    let mut out: Vec<u8> = Vec::new();
    out.push(0x1b);
    out.push(0x5b);
    if sgr {
        out.push(0x3c);
        push_decimal_usize(&mut out, cb as usize);
        out.push(0x3b);
        push_decimal_usize(&mut out, cx);
        out.push(0x3b);
        push_decimal_usize(&mut out, cy);
        out.push(
            if press {
                0x4d
            } else {
                0x6d
            },
        );
    } else {
        out.push(0x4d);
        out.push(cb + 32);
        out.push(cx as u8 + 32);
        out.push(cy as u8 + 32);
    }
    proof {
        if sgr {
            assert(out@ =~= mouse_report(sgr, cb, col as nat, row as nat, press));
        } else {
            assert(out@ =~= mouse_report(sgr, cb, col as nat, row as nat, press));
        }
    }
    out
}

impl Terminal {
    /// The report of button code `cb` in the encoding the program chose.
    fn send_mouse_event(&self, cb: u8, col: usize, row: usize, press: bool) -> (r: Vec<u8>)
        requires
            !self.grid@.modes.mouse_sgr ==> cb + 32 <= 255,
        ensures
            r@ == mouse_report(self.grid@.modes.mouse_sgr, cb, col as nat, row as nat, press),
    {
        mouse_report_bytes(self.grid.mouse_sgr(), cb, col, row, press)
    }

    /// The bytes a press of `button` (0 left, 1 middle, 2 right) at a
    /// 0-based cell sends.
    pub fn send_mouse_press(&self, button: u8, col: usize, row: usize) -> (r: Vec<u8>)
        requires
            self.grid@.modes.mouse_mode != MouseMode::Off && !self.grid@.modes.mouse_sgr
                ==> button + 32 <= 255,
        ensures
            r@ == press_report(self.grid@.modes, button, col as nat, row as nat),
    {
        if self.grid.mouse_mode() == MouseMode::Off {
            return Vec::new();
        }
        self.send_mouse_event(button, col, row, true)
    }

    /// The bytes a release of `button` at a 0-based cell sends.
    pub fn send_mouse_release(&self, button: u8, col: usize, row: usize) -> (r: Vec<u8>)
        ensures
            r@ == release_report(self.grid@.modes, button, col as nat, row as nat),
    {
        if self.grid.mouse_mode() == MouseMode::Off {
            return Vec::new();
        }
        if self.grid.mouse_sgr() {
            self.send_mouse_event(button, col, row, false)
        } else {
            self.send_mouse_event(3, col, row, true)
        }
    }

    /// The bytes a pointer motion to a 0-based cell sends, with the button
    /// held, if any.
    pub fn send_mouse_move(&self, col: usize, row: usize, button_held: Option<u8>) -> (r: Vec<u8>)
        requires
            reports_motion(self.grid@.modes, button_held) ==> match button_held {
                Some(b) => b + 32 <= 255 && (!self.grid@.modes.mouse_sgr ==> b + 64 <= 255),
                None => true,
            },
        ensures
            r@ == motion_report(self.grid@.modes, col as nat, row as nat, button_held),
    {
        let mode = self.grid.mouse_mode();
        let reported = match mode {
            MouseMode::AnyEvent => true,
            MouseMode::ButtonEvent => button_held.is_some(),
            _ => false,
        };
        if !reported {
            return Vec::new();
        }
        let cb: u8 = match button_held {
            Some(b) => 32 + b,
            None => 35,
        };
        self.send_mouse_event(cb, col, row, true)
    }

    /// The bytes a wheel step at a 0-based cell sends (`delta` negative
    /// upwards, otherwise downwards).
    pub fn send_mouse_wheel(&self, delta: i8, col: usize, row: usize) -> (r: Vec<u8>)
        ensures
            r@ == wheel_report(self.grid@.modes, delta, col as nat, row as nat),
    {
        if self.grid.mouse_mode() == MouseMode::Off {
            return Vec::new();
        }
        let cb: u8 = if delta < 0 {
            64
        } else {
            65
        };
        self.send_mouse_event(cb, col, row, true)
    }

    /// The bytes a change of focus sends.
    pub fn send_focus_event(&self, focused: bool) -> (r: Vec<u8>)
        ensures
            r@ == focus_report(self.grid@.modes, focused),
    {
        let mut out: Vec<u8> = Vec::new();
        if self.grid.send_focus_events() {
            out.push(0x1b);
            out.push(0x5b);
            out.push(
                if focused {
                    0x49
                } else {
                    0x4f
                },
            );
            proof {
                assert(out@ =~= focus_report(self.grid@.modes, focused));
            }
        }
        out
    }

    /// The bytes a paste of the clipboard sends.
    pub fn paste_clipboard(&self) -> (r: Vec<u8>)
        ensures
            r@ == paste_bytes(self.grid@.modes.bracketed_paste, self.clipboard@),
    {
        let mut out: Vec<u8> = Vec::new();
        let text = self.clipboard.as_str();
        if text.is_empty() {
            return out;
        }
        let bytes = text.as_bytes();
        if self.grid.bracketed_paste() {
            push_all(&mut out, &[0x1bu8, 0x5bu8, 0x32u8, 0x30u8, 0x30u8, 0x7eu8]);
            push_all(&mut out, bytes);
            push_all(&mut out, &[0x1bu8, 0x5bu8, 0x32u8, 0x30u8, 0x31u8, 0x7eu8]);
            proof {
                assert(out@ =~= paste_bytes(true, self.clipboard@));
            }
        } else {
            push_all(&mut out, bytes);
            proof {
                assert(out@ =~= paste_bytes(false, self.clipboard@));
            }
        }
        out
    }
}

} // verus!
