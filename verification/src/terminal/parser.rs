//! Control sequences applied to the terminal: printable characters, C0
//! controls, CSI sequences (cursor movement, erasing, scrolling, SGR
//! attributes, modes and queries) and ESC sequences.
//!
//! The byte-level parsing is done by a VT parser outside the library, which
//! hands over each sequence with its numeric parameters (each parameter a
//! list of colon-separated sub-parameters), its intermediate bytes and its
//! final character. Each handler here states its effect on the grid model
//! and the reply bytes it appends to `pty_response`.

use vstd::prelude::*;

use crate::terminal::grid::{
    after_linefeed, after_put_char, after_reverse_index, char_edit_defined, chars_deleted,
    chars_erased, chars_inserted, default_pen, entered_alternate, erased_in_display,
    erased_in_line, initial_grid, left_alternate, lines_deleted, lines_inserted, min_int,
    next_tab_stop, put_char_defined, put_char_times, repeat_defined, sat_sub, scrolled_down,
    scrolled_up, CellAttrs, Color, CursorAppearance, CursorStyle, Grid, GridModel, KeyboardModel,
    MouseMode, Pen, TerminalModes, UnderlineStyle, ATTR_BLINK, ATTR_BOLD, ATTR_DIM, ATTR_HIDDEN,
    ATTR_INVERSE, ATTR_ITALIC, ATTR_OVERLINE, ATTR_STRIKE, ATTR_UNDERLINE, MAX_KITTY_STACK_DEPTH,
    kitty_pop_n,
};
use crate::terminal::kitty::{decimal, push_decimal};
use crate::terminal::term::Terminal;

verus! {

// ============================================================================
// Helper functions
// ============================================================================
/// A CSI parameter with 0 standing for the default.
pub open spec fn pod(param: u16, default: usize) -> usize {
    if param == 0 {
        default
    } else {
        param as usize
    }
}

/// Convert CSI parameter to usize with default value.
/// CSI parameters treat 0 as "default" (usually 1).
pub fn param_or_default(param: u16, default: usize) -> (r: usize)
    ensures
        r == pod(param, default),
{
    if param == 0 {
        default
    } else {
        param as usize
    }
}

/// Cursor style and blink state of a DECSCUSR parameter.
pub open spec fn decscusr(param: u16) -> Option<(CursorStyle, bool)> {
    if param == 0 || param == 1 {
        Some((CursorStyle::Block, true))
    } else if param == 2 {
        Some((CursorStyle::Block, false))
    } else if param == 3 {
        Some((CursorStyle::Underline, true))
    } else if param == 4 {
        Some((CursorStyle::Underline, false))
    } else if param == 5 {
        Some((CursorStyle::Bar, true))
    } else if param == 6 {
        Some((CursorStyle::Bar, false))
    } else {
        None
    }
}

/// Get cursor style and blink state from DECSCUSR parameter.
/// Returns (CursorStyle, blink) or None for invalid parameter.
pub fn cursor_style_from_decscusr(param: u16) -> (r: Option<(CursorStyle, bool)>)
    ensures
        r == decscusr(param),
{
    match param {
        0 | 1 => Some((CursorStyle::Block, true)),
        2 => Some((CursorStyle::Block, false)),
        3 => Some((CursorStyle::Underline, true)),
        4 => Some((CursorStyle::Underline, false)),
        5 => Some((CursorStyle::Bar, true)),
        6 => Some((CursorStyle::Bar, false)),
        _ => None,
    }
}

/// The parameters as sequences of sub-parameters.
pub open spec fn params_view(ps: Seq<Vec<u16>>) -> Seq<Seq<u16>> {
    Seq::new(ps.len(), |i: int| ps[i]@)
}

/// Every parameter has at least one value (as the VT parser delivers them).
pub open spec fn params_nonempty(ps: Seq<Seq<u16>>) -> bool {
    forall|i: int| 0 <= i < ps.len() ==> #[trigger] ps[i].len() >= 1
}

/// The first value of parameter `i`, when there is one.
pub open spec fn param_at(ps: Seq<Seq<u16>>, i: int) -> Option<u16> {
    if 0 <= i < ps.len() && ps[i].len() > 0 {
        Some(ps[i][0])
    } else {
        None
    }
}

/// The first value of parameter `i`, or `d`.
pub open spec fn param_or(ps: Seq<Seq<u16>>, i: int, d: u16) -> u16 {
    match param_at(ps, i) {
        Some(v) => v,
        None => d,
    }
}

fn param_value(ps: &Vec<Vec<u16>>, i: usize, d: u16) -> (r: u16)
    ensures
        r == param_or(params_view(ps@), i as int, d),
{
    if i < ps.len() && ps[i].len() > 0 {
        ps[i][0]
    } else {
        d
    }
}

/// Appends `bytes` to `out`.
pub(crate) fn push_all(out: &mut Vec<u8>, bytes: &[u8])
    ensures
        final(out)@ == old(out)@ + bytes@,
{
    let mut i: usize = 0;
    while i < bytes.len()
        invariant
            0 <= i <= bytes.len(),
            out@ == old(out)@ + bytes@.subrange(0, i as int),
        decreases bytes.len() - i,
    {
        out.push(bytes[i]);
        proof {
            assert(bytes@.subrange(0, i + 1) =~= bytes@.subrange(0, i as int).push(bytes@[i as int]));
        }
        i = i + 1;
    }
    proof {
        assert(bytes@.subrange(0, bytes@.len() as int) =~= bytes@);
    }
}

/// Appends the decimal digits of `n`.
pub(crate) fn push_decimal_usize(out: &mut Vec<u8>, n: usize)
    ensures
        final(out)@ == old(out)@ + decimal(n as nat),
    decreases n,
{
    if n >= 10 {
        push_decimal_usize(out, n / 10);
        out.push((0x30 + n % 10) as u8);
        proof {
            assert(decimal(n as nat) == decimal((n / 10) as nat).push((0x30 + n % 10) as u8));
        }
    } else {
        out.push((0x30 + n) as u8);
        proof {
            assert(decimal(n as nat) =~= seq![(0x30 + n) as u8]);
        }
    }
}

// ============================================================================
// Grid changes, as the grid's operations state them
// ============================================================================
pub open spec fn pen_set(g: GridModel, pen: Pen) -> GridModel {
    GridModel { pen, ..g }
}

pub open spec fn with_attr(g: GridModel, bits: u16) -> GridModel {
    pen_set(g, Pen { attrs: CellAttrs { bits: g.pen.attrs.bits | bits }, ..g.pen })
}

pub open spec fn without_attr(g: GridModel, bits: u16) -> GridModel {
    pen_set(g, Pen { attrs: CellAttrs { bits: g.pen.attrs.bits & !bits }, ..g.pen })
}

pub open spec fn with_fg(g: GridModel, c: Color) -> GridModel {
    pen_set(g, Pen { fg: c, ..g.pen })
}

pub open spec fn with_bg(g: GridModel, c: Color) -> GridModel {
    pen_set(g, Pen { bg: c, ..g.pen })
}

pub open spec fn with_underline(g: GridModel, style: UnderlineStyle) -> GridModel {
    pen_set(
        g,
        Pen {
            underline_style: style,
            attrs: CellAttrs {
                bits: if style != UnderlineStyle::Off {
                    g.pen.attrs.bits | ATTR_UNDERLINE
                } else {
                    g.pen.attrs.bits & !ATTR_UNDERLINE
                },
            },
            ..g.pen
        },
    )
}

pub open spec fn with_underline_color(g: GridModel, c: Option<Color>) -> GridModel {
    pen_set(g, Pen { underline_color: c, ..g.pen })
}

pub open spec fn cursor_up(g: GridModel, n: usize) -> GridModel {
    GridModel { cursor_row: sat_sub(g.cursor_row as int, n as int), ..g }
}

pub open spec fn cursor_down(g: GridModel, n: usize) -> GridModel {
    GridModel { cursor_row: min_int(g.cursor_row + n, g.rows - 1) as nat, ..g }
}

pub open spec fn cursor_forward(g: GridModel, n: usize) -> GridModel {
    GridModel { cursor_col: min_int(g.cursor_col + n, g.cols - 1) as nat, ..g }
}

pub open spec fn cursor_backward(g: GridModel, n: usize) -> GridModel {
    GridModel { cursor_col: sat_sub(g.cursor_col as int, n as int), ..g }
}

pub open spec fn cursor_home_col(g: GridModel) -> GridModel {
    GridModel { cursor_col: 0, ..g }
}

pub open spec fn cursor_to(g: GridModel, row: usize, col: usize) -> GridModel {
    GridModel {
        cursor_row: min_int(sat_sub(row as int, 1) as int, g.rows - 1) as nat,
        cursor_col: min_int(sat_sub(col as int, 1) as int, g.cols - 1) as nat,
        ..g
    }
}

pub open spec fn cursor_saved(g: GridModel) -> GridModel {
    GridModel { saved_cursor: Some((g.cursor_row as usize, g.cursor_col as usize)), ..g }
}

pub open spec fn cursor_restored(g: GridModel) -> GridModel {
    match g.saved_cursor {
        Some((r, c)) => GridModel {
            cursor_row: min_int(r as int, g.rows - 1) as nat,
            cursor_col: min_int(c as int, g.cols - 1) as nat,
            ..g
        },
        None => g,
    }
}

/// Restoring the cursor right after saving it (`ESC 7` then `ESC 8`, or
/// `CSI s` then `CSI u`) leaves the grid as the save left it: the cursor is
/// back where it was. A cursor past the last column, waiting to wrap, comes
/// back clamped to the last column instead.
pub proof fn lemma_save_restore_cursor(g: GridModel)
    requires
        g.wf(),
        g.cursor_col < g.cols,
    ensures
        cursor_restored(cursor_saved(g)) == cursor_saved(g),
        cursor_restored(cursor_saved(g)).cursor_row == g.cursor_row,
        cursor_restored(cursor_saved(g)).cursor_col == g.cursor_col,
{
    let s = cursor_saved(g);
    assert(cursor_restored(s) =~= s);
}

pub open spec fn scroll_region_set(g: GridModel, top: usize, bottom: usize) -> GridModel {
    let t = min_int((if top == 0 { 1 } else { top as int }) - 1, g.rows - 1);
    let b = min_int((if bottom == 0 { g.rows as int } else { bottom as int }) - 1, g.rows - 1);
    GridModel {
        scroll_top: if t < b { t as nat } else { g.scroll_top },
        scroll_bottom: if t < b { b as nat } else { g.scroll_bottom },
        cursor_row: 0,
        cursor_col: 0,
        ..g
    }
}

pub open spec fn modes_set(g: GridModel, modes: TerminalModes) -> GridModel {
    GridModel { modes, ..g }
}

pub open spec fn keyboard_set(g: GridModel, k: KeyboardModel) -> GridModel {
    GridModel { keyboard: k, ..g }
}

pub open spec fn kitty_pushed(g: GridModel, flags: u32) -> GridModel {
    keyboard_set(
        g,
        KeyboardModel {
            kitty_flags: flags,
            kitty_stack: if g.keyboard.kitty_stack.len() < MAX_KITTY_STACK_DEPTH {
                g.keyboard.kitty_stack.push(g.keyboard.kitty_flags)
            } else {
                g.keyboard.kitty_stack
            },
            ..g.keyboard
        },
    )
}

pub open spec fn kitty_popped(g: GridModel, count: u16) -> GridModel {
    let (f, st) = kitty_pop_n(
        g.keyboard.kitty_flags,
        g.keyboard.kitty_stack,
        if count == 0 { 1 } else { count as nat },
    );
    keyboard_set(g, KeyboardModel { kitty_flags: f, kitty_stack: st, ..g.keyboard })
}

// ============================================================================
// SGR
// ============================================================================
/// The underline style of `CSI 4:x m` (unknown styles fall back to single).
pub open spec fn underline_style_of(x: u16) -> UnderlineStyle {
    if x == 0 {
        UnderlineStyle::Off
    } else if x == 1 {
        UnderlineStyle::Single
    } else if x == 2 {
        UnderlineStyle::Double
    } else if x == 3 {
        UnderlineStyle::Curly
    } else if x == 4 {
        UnderlineStyle::Dotted
    } else if x == 5 {
        UnderlineStyle::Dashed
    } else {
        UnderlineStyle::Single
    }
}

/// The colour of a colon form `38:5:n`, `38:2:r:g:b` or
/// `38:2:colorspace:r:g:b`.
pub open spec fn colon_color(p: Seq<u16>) -> Option<Color> {
    if p.len() < 3 {
        None
    } else if p[1] == 5 {
        Some(Color::Indexed(p[2] as u8))
    } else if p[1] == 2 {
        if p.len() >= 6 {
            Some(Color::Rgb(p[3] as u8, p[4] as u8, p[5] as u8))
        } else if p.len() >= 5 {
            Some(Color::Rgb(p[2] as u8, p[3] as u8, p[4] as u8))
        } else {
            None
        }
    } else {
        None
    }
}

/// A parameter with colon-separated sub-parameters.
pub open spec fn sgr_subparams(g: GridModel, p: Seq<u16>) -> GridModel {
    if p.len() == 0 {
        g
    } else if p[0] == 4 {
        with_underline(g, underline_style_of(if p.len() > 1 { p[1] } else { 1 }))
    } else if p[0] == 38 {
        match colon_color(p) {
            Some(c) => with_fg(g, c),
            None => g,
        }
    } else if p[0] == 48 {
        match colon_color(p) {
            Some(c) => with_bg(g, c),
            None => g,
        }
    } else if p[0] == 58 {
        match colon_color(p) {
            Some(c) => with_underline_color(g, Some(c)),
            None => g,
        }
    } else {
        g
    }
}

/// The colour of the semicolon form following `38`, `48` or `58` at
/// parameter `j` (`5;n` or `2;r;g;b`), and how many parameters it takes.
pub open spec fn extended_color(ps: Seq<Seq<u16>>, j: int) -> (Option<Color>, int) {
    if j >= ps.len() {
        (None, 0)
    } else {
        let mode = ps[j][0];
        if mode == 5 {
            if j + 1 < ps.len() {
                (Some(Color::Indexed(ps[j + 1][0] as u8)), 2)
            } else {
                (None, 1)
            }
        } else if mode == 2 {
            if ps.len() - j > 3 {
                (Some(Color::Rgb(ps[j + 1][0] as u8, ps[j + 2][0] as u8, ps[j + 3][0] as u8)), 4)
            } else {
                (None, ps.len() - j)
            }
        } else {
            (None, 1)
        }
    }
}

/// A single SGR code without sub-parameters.
pub open spec fn sgr_code(g: GridModel, code: u16) -> GridModel {
    if code == 0 {
        pen_set(g, default_pen())
    } else if code == 1 {
        with_attr(g, ATTR_BOLD)
    } else if code == 2 {
        with_attr(g, ATTR_DIM)
    } else if code == 3 {
        with_attr(g, ATTR_ITALIC)
    } else if code == 4 {
        with_underline(g, UnderlineStyle::Single)
    } else if code == 5 {
        with_attr(g, ATTR_BLINK)
    } else if code == 7 {
        with_attr(g, ATTR_INVERSE)
    } else if code == 8 {
        with_attr(g, ATTR_HIDDEN)
    } else if code == 9 {
        with_attr(g, ATTR_STRIKE)
    } else if code == 21 {
        without_attr(g, ATTR_BOLD)
    } else if code == 22 {
        without_attr(without_attr(g, ATTR_BOLD), ATTR_DIM)
    } else if code == 23 {
        without_attr(g, ATTR_ITALIC)
    } else if code == 24 {
        with_underline(g, UnderlineStyle::Off)
    } else if code == 25 {
        without_attr(g, ATTR_BLINK)
    } else if code == 27 {
        without_attr(g, ATTR_INVERSE)
    } else if code == 28 {
        without_attr(g, ATTR_HIDDEN)
    } else if code == 29 {
        without_attr(g, ATTR_STRIKE)
    } else if 30 <= code <= 37 {
        with_fg(g, Color::Indexed((code - 30) as u8))
    } else if code == 39 {
        with_fg(g, Color::Default)
    } else if 40 <= code <= 47 {
        with_bg(g, Color::Indexed((code - 40) as u8))
    } else if code == 49 {
        with_bg(g, Color::Default)
    } else if code == 53 {
        with_attr(g, ATTR_OVERLINE)
    } else if code == 55 {
        without_attr(g, ATTR_OVERLINE)
    } else if code == 59 {
        with_underline_color(g, None)
    } else if 90 <= code <= 97 {
        with_fg(g, Color::Indexed((code - 90 + 8) as u8))
    } else if 100 <= code <= 107 {
        with_bg(g, Color::Indexed((code - 100 + 8) as u8))
    } else {
        g
    }
}

/// SGR parameters from `i` on, left to right; `38`, `48` and `58` take
/// the parameters of their colour along.
pub open spec fn sgr_from(g: GridModel, ps: Seq<Seq<u16>>, i: int) -> GridModel
    decreases ps.len() - i,
{
    if i < 0 || i >= ps.len() {
        g
    } else {
        let p = ps[i];
        if p.len() > 1 {
            sgr_from(sgr_subparams(g, p), ps, i + 1)
        } else {
            let code = p[0];
            if code == 38 || code == 48 || code == 58 {
                let (c, used) = extended_color(ps, i + 1);
                let g1 = match c {
                    Some(col) => if code == 38 {
                        with_fg(g, col)
                    } else if code == 48 {
                        with_bg(g, col)
                    } else {
                        with_underline_color(g, Some(col))
                    },
                    None => g,
                };
                sgr_from(g1, ps, i + 1 + used)
            } else {
                sgr_from(sgr_code(g, code), ps, i + 1)
            }
        }
    }
}

/// SGR (CSI Pm m): no parameter resets the pen.
pub open spec fn sgr_applied(g: GridModel, ps: Seq<Seq<u16>>) -> GridModel {
    if ps.len() == 0 {
        pen_set(g, default_pen())
    } else {
        sgr_from(g, ps, 0)
    }
}

proof fn lemma_extended_color_used(ps: Seq<Seq<u16>>, j: int)
    requires
        0 <= j,
    ensures
        0 <= extended_color(ps, j).1,
        j + extended_color(ps, j).1 <= ps.len() || extended_color(ps, j).1 == 0,
{
}

fn extended_color_exec(ps: &Vec<Vec<u16>>, j: usize) -> (r: (Option<Color>, usize))
    requires
        params_nonempty(params_view(ps@)),
    ensures
        (r.0, r.1 as int) == extended_color(params_view(ps@), j as int),
{
    let ghost v = params_view(ps@);
    if j >= ps.len() {
        return (None, 0);
    }
    proof {
        assert(v[j as int].len() >= 1);
    }
    let mode = ps[j][0];
    if mode == 5 {
        if ps.len() - j > 1 {
            proof {
                assert(v[j + 1].len() >= 1);
            }
            (Some(Color::Indexed(ps[j + 1][0] as u8)), 2)
        } else {
            (None, 1)
        }
    } else if mode == 2 {
        if ps.len() - j > 3 {
            proof {
                assert(v[j + 1].len() >= 1);
                assert(v[j + 2].len() >= 1);
                assert(v[j + 3].len() >= 1);
            }
            (Some(Color::Rgb(ps[j + 1][0] as u8, ps[j + 2][0] as u8, ps[j + 3][0] as u8)), 4)
        } else {
            (None, ps.len() - j)
        }
    } else {
        (None, 1)
    }
}

fn colon_color_exec(p: &Vec<u16>) -> (r: Option<Color>)
    ensures
        r == colon_color(p@),
{
    if p.len() < 3 {
        return None;
    }
    if p[1] == 5 {
        Some(Color::Indexed(p[2] as u8))
    } else if p[1] == 2 {
        if p.len() >= 6 {
            Some(Color::Rgb(p[3] as u8, p[4] as u8, p[5] as u8))
        } else if p.len() >= 5 {
            Some(Color::Rgb(p[2] as u8, p[3] as u8, p[4] as u8))
        } else {
            None
        }
    } else {
        None
    }
}

fn underline_style_exec(x: u16) -> (r: UnderlineStyle)
    ensures
        r == underline_style_of(x),
{
    match x {
        0 => UnderlineStyle::Off,
        1 => UnderlineStyle::Single,
        2 => UnderlineStyle::Double,
        3 => UnderlineStyle::Curly,
        4 => UnderlineStyle::Dotted,
        5 => UnderlineStyle::Dashed,
        _ => UnderlineStyle::Single,
    }
}

/// Handle sub-parameters (colon-separated)
fn handle_sgr_subparams(grid: &mut Grid, p: &Vec<u16>)
    requires
        old(grid).wf(),
    ensures
        final(grid).wf(),
        final(grid)@ == sgr_subparams(old(grid)@, p@),
{
    if p.len() == 0 {
        return ;
    }
    if p[0] == 4 {
        let x = if p.len() > 1 {
            p[1]
        } else {
            1
        };
        grid.set_underline_style(underline_style_exec(x));
    } else if p[0] == 38 {
        if let Some(c) = colon_color_exec(p) {
            grid.set_fg(c);
        }
    } else if p[0] == 48 {
        if let Some(c) = colon_color_exec(p) {
            grid.set_bg(c);
        }
    } else if p[0] == 58 {
        if let Some(c) = colon_color_exec(p) {
            grid.set_underline_color(c);
        }
    }
}

/// A single SGR code.
fn apply_sgr_code(grid: &mut Grid, code: u16)
    requires
        old(grid).wf(),
    ensures
        final(grid).wf(),
        final(grid)@ == sgr_code(old(grid)@, code),
{
    match code {
        0 => grid.reset_attrs(),
        1 => grid.set_attr(CellAttrs { bits: ATTR_BOLD }),
        2 => grid.set_attr(CellAttrs { bits: ATTR_DIM }),
        3 => grid.set_attr(CellAttrs { bits: ATTR_ITALIC }),
        4 => grid.set_underline_style(UnderlineStyle::Single),
        5 => grid.set_attr(CellAttrs { bits: ATTR_BLINK }),
        7 => grid.set_attr(CellAttrs { bits: ATTR_INVERSE }),
        8 => grid.set_attr(CellAttrs { bits: ATTR_HIDDEN }),
        9 => grid.set_attr(CellAttrs { bits: ATTR_STRIKE }),
        21 => grid.clear_attr(CellAttrs { bits: ATTR_BOLD }),
        22 => {
            grid.clear_attr(CellAttrs { bits: ATTR_BOLD });
            grid.clear_attr(CellAttrs { bits: ATTR_DIM });
        },
        23 => grid.clear_attr(CellAttrs { bits: ATTR_ITALIC }),
        24 => grid.set_underline_style(UnderlineStyle::Off),
        25 => grid.clear_attr(CellAttrs { bits: ATTR_BLINK }),
        27 => grid.clear_attr(CellAttrs { bits: ATTR_INVERSE }),
        28 => grid.clear_attr(CellAttrs { bits: ATTR_HIDDEN }),
        29 => grid.clear_attr(CellAttrs { bits: ATTR_STRIKE }),
        30..=37 => grid.set_fg(Color::Indexed((code - 30) as u8)),
        39 => grid.set_fg(Color::Default),
        40..=47 => grid.set_bg(Color::Indexed((code - 40) as u8)),
        49 => grid.set_bg(Color::Default),
        53 => grid.set_attr(CellAttrs { bits: ATTR_OVERLINE }),
        55 => grid.clear_attr(CellAttrs { bits: ATTR_OVERLINE }),
        59 => grid.reset_underline_color(),
        90..=97 => grid.set_fg(Color::Indexed((code - 90 + 8) as u8)),
        100..=107 => grid.set_bg(Color::Indexed((code - 100 + 8) as u8)),
        _ => {},
    }
}

/// Handle SGR (Select Graphic Rendition) sequences (CSI Pm m).
fn handle_sgr(grid: &mut Grid, ps: &Vec<Vec<u16>>)
    requires
        old(grid).wf(),
        params_nonempty(params_view(ps@)),
    ensures
        final(grid).wf(),
        final(grid)@ == sgr_applied(old(grid)@, params_view(ps@)),
{
    let ghost v = params_view(ps@);
    if ps.len() == 0 {
        grid.reset_attrs();
        return ;
    }
    let mut i: usize = 0;
    while i < ps.len()
        invariant
            0 <= i <= ps.len(),
            grid.wf(),
            v == params_view(ps@),
            params_nonempty(v),
            sgr_from(grid@, v, i as int) == sgr_from(old(grid)@, v, 0),
        decreases ps.len() - i,
    {
        let ghost before = grid@;
        proof {
            assert(v[i as int] == ps@[i as int]@);
            assert(v[i as int].len() >= 1);
        }
        let p = &ps[i];
        if p.len() > 1 {
            handle_sgr_subparams(grid, p);
            i = i + 1;
        } else {
            let code = p[0];
            if code == 38 || code == 48 || code == 58 {
                let (c, used) = extended_color_exec(ps, i + 1);
                proof {
                    lemma_extended_color_used(v, i + 1);
                }
                match c {
                    Some(col) => {
                        if code == 38 {
                            grid.set_fg(col);
                        } else if code == 48 {
                            grid.set_bg(col);
                        } else {
                            grid.set_underline_color(col);
                        }
                    },
                    None => {},
                }
                i = i + 1 + used;
            } else {
                apply_sgr_code(grid, code);
                i = i + 1;
            }
        }
    }
}

// ============================================================================
// DEC private modes
// ============================================================================
pub open spec fn with_modes(g: GridModel, f: spec_fn(TerminalModes) -> TerminalModes) -> GridModel {
    modes_set(g, f(g.modes))
}

/// DECSET / DECRST of one DEC private mode.
pub open spec fn decset_one(g: GridModel, mode: u16, enable: bool) -> GridModel {
    let m = g.modes;
    if mode == 1 {
        modes_set(g, TerminalModes { application_cursor_keys: enable, ..m })
    } else if mode == 6 {
        GridModel { cursor_row: if enable { g.scroll_top } else { 0 }, cursor_col: 0, ..g }
    } else if mode == 7 {
        modes_set(g, TerminalModes { auto_wrap: enable, ..m })
    } else if mode == 25 {
        modes_set(g, TerminalModes { cursor_visible: enable, ..m })
    } else if mode == 1047 || mode == 1049 {
        if enable {
            entered_alternate(g)
        } else {
            left_alternate(g)
        }
    } else if mode == 1048 {
        if enable {
            cursor_saved(g)
        } else {
            cursor_restored(g)
        }
    } else if mode == 1000 || mode == 1002 || mode == 1003 {
        modes_set(
            g,
            TerminalModes {
                mouse_mode: if !enable {
                    MouseMode::Off
                } else if mode == 1000 {
                    MouseMode::X10
                } else if mode == 1002 {
                    MouseMode::ButtonEvent
                } else {
                    MouseMode::AnyEvent
                },
                ..m
            },
        )
    } else if mode == 1006 {
        modes_set(g, TerminalModes { mouse_sgr: enable, ..m })
    } else if mode == 1004 {
        modes_set(g, TerminalModes { send_focus_events: enable, ..m })
    } else if mode == 2004 {
        modes_set(g, TerminalModes { bracketed_paste: enable, ..m })
    } else if mode == 2026 {
        modes_set(g, TerminalModes { synchronized_update: enable, ..m })
    } else {
        g
    }
}

/// DECSET / DECRST of every mode listed, left to right.
pub open spec fn decset_all(g: GridModel, ps: Seq<Seq<u16>>, enable: bool, i: int) -> GridModel
    decreases ps.len() - i,
{
    if i < 0 || i >= ps.len() {
        g
    } else {
        let g1 = match param_at(ps, i) {
            Some(mode) => decset_one(g, mode, enable),
            None => g,
        };
        decset_all(g1, ps, enable, i + 1)
    }
}

/// Whether a DEC private mode is set, for the modes the terminal keeps.
pub open spec fn dec_mode_state(g: GridModel, mode: u16) -> Option<bool> {
    if mode == 1 {
        Some(g.modes.application_cursor_keys)
    } else if mode == 7 {
        Some(g.modes.auto_wrap)
    } else if mode == 25 {
        Some(g.modes.cursor_visible)
    } else if mode == 1000 {
        Some(g.modes.mouse_mode == MouseMode::X10)
    } else if mode == 1002 {
        Some(g.modes.mouse_mode == MouseMode::ButtonEvent)
    } else if mode == 1003 {
        Some(g.modes.mouse_mode == MouseMode::AnyEvent)
    } else if mode == 1004 {
        Some(g.modes.send_focus_events)
    } else if mode == 1006 {
        Some(g.modes.mouse_sgr)
    } else if mode == 1047 || mode == 1049 {
        Some(g.alternate is Some)
    } else if mode == 2004 {
        Some(g.modes.bracketed_paste)
    } else if mode == 2026 {
        Some(g.modes.synchronized_update)
    } else {
        None
    }
}

fn dec_mode_state_exec(grid: &Grid, mode: u16) -> (r: Option<bool>)
    ensures
        r == dec_mode_state(grid@, mode),
{
    let m = grid.modes();
    match mode {
        1 => Some(m.application_cursor_keys),
        7 => Some(m.auto_wrap),
        25 => Some(m.cursor_visible),
        1000 => Some(m.mouse_mode == MouseMode::X10),
        1002 => Some(m.mouse_mode == MouseMode::ButtonEvent),
        1003 => Some(m.mouse_mode == MouseMode::AnyEvent),
        1004 => Some(m.send_focus_events),
        1006 => Some(m.mouse_sgr),
        1047 | 1049 => Some(grid.is_alternate_screen()),
        2004 => Some(m.bracketed_paste),
        2026 => Some(m.synchronized_update),
        _ => None,
    }
}

/// DECSET / DECRST of one DEC private mode.
fn handle_decset(grid: &mut Grid, mode: u16, enable: bool)
    requires
        old(grid).wf(),
    ensures
        final(grid).wf(),
        final(grid)@ == decset_one(old(grid)@, mode, enable),
{
    let m = grid.modes();
    match mode {
        1 => grid.set_modes(TerminalModes { application_cursor_keys: enable, ..m }),
        6 => {
            let (top, _) = grid.scroll_region();
            let row = if enable {
                top
            } else {
                0
            };
            grid.set_cursor_position(row, 0);
        },
        7 => grid.set_modes(TerminalModes { auto_wrap: enable, ..m }),
        25 => grid.set_modes(TerminalModes { cursor_visible: enable, ..m }),
        1047 | 1049 => {
            if enable {
                grid.enter_alternate_screen();
            } else {
                grid.leave_alternate_screen();
            }
        },
        1048 => {
            if enable {
                grid.save_cursor();
            } else {
                grid.restore_cursor();
            }
        },
        1000 | 1002 | 1003 => {
            let new_mode = if !enable {
                MouseMode::Off
            } else if mode == 1000 {
                MouseMode::X10
            } else if mode == 1002 {
                MouseMode::ButtonEvent
            } else {
                MouseMode::AnyEvent
            };
            grid.set_modes(TerminalModes { mouse_mode: new_mode, ..m });
        },
        1006 => grid.set_modes(TerminalModes { mouse_sgr: enable, ..m }),
        1004 => grid.set_modes(TerminalModes { send_focus_events: enable, ..m }),
        2004 => grid.set_modes(TerminalModes { bracketed_paste: enable, ..m }),
        2026 => grid.set_modes(TerminalModes { synchronized_update: enable, ..m }),
        _ => {},
    }
}

/// DECSET / DECRST of every listed mode.
fn handle_decset_all(grid: &mut Grid, ps: &Vec<Vec<u16>>, enable: bool)
    requires
        old(grid).wf(),
    ensures
        final(grid).wf(),
        final(grid)@ == decset_all(old(grid)@, params_view(ps@), enable, 0),
{
    let ghost v = params_view(ps@);
    let mut i: usize = 0;
    while i < ps.len()
        invariant
            0 <= i <= ps.len(),
            grid.wf(),
            v == params_view(ps@),
            decset_all(grid@, v, enable, i as int) == decset_all(old(grid)@, v, enable, 0),
        decreases ps.len() - i,
    {
        if ps[i].len() > 0 {
            let mode = ps[i][0];
            handle_decset(grid, mode, enable);
        }
        i = i + 1;
    }
}

// ============================================================================
// Replies
// ============================================================================
/// Primary device attributes: VT220 with 132 columns, Sixel, ANSI colour
/// and the text locator (`ESC [ ? 62;1;4;22;29 c`).
pub open spec fn da1_reply() -> Seq<u8> {
    seq![0x1b, 0x5b, 0x3f, 0x36, 0x32, 0x3b, 0x31, 0x3b, 0x34, 0x3b, 0x32, 0x32, 0x3b, 0x32, 0x39, 0x63]
}

/// Secondary device attributes (`ESC [ > 1;100;0 c`).
pub open spec fn da2_reply() -> Seq<u8> {
    seq![0x1b, 0x5b, 0x3e, 0x31, 0x3b, 0x31, 0x30, 0x30, 0x3b, 0x30, 0x63]
}

/// Tertiary device attributes (`ESC P ! | 00000000 ESC \`).
pub open spec fn da3_reply() -> Seq<u8> {
    seq![0x1b, 0x50, 0x21, 0x7c, 0x30, 0x30, 0x30, 0x30, 0x30, 0x30, 0x30, 0x30, 0x1b, 0x5c]
}

/// Terminal name and version (`ESC P > | bcon 0.1.0 ESC \`).
pub open spec fn xtversion_reply() -> Seq<u8> {
    seq![0x1b, 0x50, 0x3e, 0x7c, 0x62, 0x63, 0x6f, 0x6e, 0x20, 0x30, 0x2e, 0x31, 0x2e, 0x30, 0x1b, 0x5c]
}

/// Status report: no malfunction (`ESC [ 0 n`).
pub open spec fn status_ok_reply() -> Seq<u8> {
    seq![0x1b, 0x5b, 0x30, 0x6e]
}

/// `ESC [` followed by `body` and the final byte `fin`.
pub open spec fn csi_reply(body: Seq<u8>, fin: u8) -> Seq<u8> {
    seq![0x1b, 0x5b] + body + seq![fin]
}

/// Two numbers separated by `;`.
pub open spec fn two_numbers(a: nat, b: nat) -> Seq<u8> {
    decimal(a) + seq![0x3b] + decimal(b)
}

/// Cursor position report (`ESC [ row ; col R`, 1-based).
pub open spec fn cursor_report(g: GridModel) -> Seq<u8> {
    csi_reply(two_numbers(g.cursor_row + 1, g.cursor_col + 1), 0x52)
}

/// Window size reports of XTWINOPS: 14 pixels, 16 cell pixels, 18 cells.
pub open spec fn winops_reply(g: GridModel, op: u16, cw: u32, ch: u32) -> Seq<u8> {
    if op == 14 {
        let w = vstd::wrapping::u32_specs::wrapping_mul(g.cols as u32, cw);
        let h = vstd::wrapping::u32_specs::wrapping_mul(g.rows as u32, ch);
        csi_reply(seq![0x34, 0x3b] + two_numbers(h as nat, w as nat), 0x74)
    } else if op == 16 {
        csi_reply(seq![0x36, 0x3b] + two_numbers(ch as nat, cw as nat), 0x74)
    } else if op == 18 {
        csi_reply(seq![0x38, 0x3b] + two_numbers(g.rows, g.cols), 0x74)
    } else {
        seq![]
    }
}

/// DECRQM reply: `ESC [ ? mode ; state $ y` for DEC modes (state 1 set, 2
/// reset, 0 unknown); the ANSI form has no `?` and knows only mode 4
/// (insert), which this terminal never sets.
pub open spec fn decrqm_reply(g: GridModel, mode: u16, dec: bool) -> Seq<u8> {
    if dec {
        let pm: nat = match dec_mode_state(g, mode) {
            Some(true) => 1,
            Some(false) => 2,
            None => 0,
        };
        csi_reply(seq![0x3f] + two_numbers(mode as nat, pm) + seq![0x24], 0x79)
    } else {
        let pm: nat = if mode == 4 {
            2
        } else {
            0
        };
        csi_reply(two_numbers(mode as nat, pm) + seq![0x24], 0x79)
    }
}

/// Kitty keyboard flags query reply (`ESC [ ? flags u`).
pub open spec fn kitty_flags_reply(g: GridModel) -> Seq<u8> {
    csi_reply(seq![0x3f] + decimal(g.keyboard.kitty_flags as nat), 0x75)
}

// ============================================================================
// CSI dispatch
// ============================================================================
/// A CSI sequence without intermediates: its effect on the grid and reply.
pub open spec fn csi_plain(g: GridModel, ps: Seq<Seq<u16>>, action: char, cw: u32, ch: u32) -> (
    GridModel,
    Seq<u8>,
) {
    let p0 = param_or(ps, 0, 0);
    let n = pod(p0, 1);
    if action == 'A' {
        (cursor_up(g, n), seq![])
    } else if action == 'B' {
        (cursor_down(g, n), seq![])
    } else if action == 'C' {
        (cursor_forward(g, n), seq![])
    } else if action == 'D' {
        (cursor_backward(g, n), seq![])
    } else if action == 'E' {
        (cursor_home_col(cursor_down(g, n)), seq![])
    } else if action == 'F' {
        (cursor_home_col(cursor_up(g, n)), seq![])
    } else if action == 'H' || action == 'f' {
        let col = match param_at(ps, 1) {
            Some(v) => pod(v, 1),
            None => 1,
        };
        (cursor_to(g, n, col), seq![])
    } else if action == 'G' {
        (cursor_to(g, (g.cursor_row + 1) as usize, n), seq![])
    } else if action == 'd' {
        (cursor_to(g, n, (g.cursor_col + 1) as usize), seq![])
    } else if action == 'J' {
        (erased_in_display(g, p0), seq![])
    } else if action == 'K' {
        (erased_in_line(g, p0), seq![])
    } else if action == 'L' {
        (lines_inserted(g, n as nat), seq![])
    } else if action == 'M' {
        (lines_deleted(g, n as nat), seq![])
    } else if action == 'P' {
        (chars_deleted(g, n as nat), seq![])
    } else if action == '@' {
        (chars_inserted(g, n as nat), seq![])
    } else if action == 'X' {
        (chars_erased(g, n as nat), seq![])
    } else if action == 'S' {
        (scrolled_up(g, n as nat), seq![])
    } else if action == 'T' {
        (scrolled_down(g, n as nat), seq![])
    } else if action == 's' {
        (cursor_saved(g), seq![])
    } else if action == 'u' {
        (cursor_restored(g), seq![])
    } else if action == 'n' {
        (g, if p0 == 5 {
            status_ok_reply()
        } else if p0 == 6 {
            cursor_report(g)
        } else {
            seq![]
        })
    } else if action == 'c' {
        (g, da1_reply())
    } else if action == 'b' {
        (put_char_times(g, g.last_char, n as nat), seq![])
    } else if action == 'm' {
        (sgr_applied(g, ps), seq![])
    } else if action == 'r' {
        (scroll_region_set(g, p0 as usize, param_or(ps, 1, 0) as usize), seq![])
    } else if action == 't' {
        (g, winops_reply(g, p0, cw, ch))
    } else if action == 'p' {
        (g, decrqm_reply(g, p0, false))
    } else {
        (g, seq![])
    }
}

/// The grid after a CSI sequence without intermediates; the cell size
/// enters the replies only.
pub open spec fn csi_plain_grid(g: GridModel, ps: Seq<Seq<u16>>, action: char) -> GridModel {
    csi_plain(g, ps, action, 0, 0).0
}

/// The intermediates are the single byte `b`.
pub open spec fn one_byte(inter: Seq<u8>, b: u8) -> bool {
    inter.len() == 1 && inter[0] == b
}

/// A CSI sequence with intermediates: its effect on the grid and reply.
pub open spec fn csi_marked(g: GridModel, ps: Seq<Seq<u16>>, inter: Seq<u8>, action: char) -> (
    GridModel,
    Seq<u8>,
) {
    let p0 = param_or(ps, 0, 0);
    if one_byte(inter, 0x3f) {
        if action == 'c' {
            (g, da1_reply())
        } else if action == 'h' {
            (decset_all(g, ps, true, 0), seq![])
        } else if action == 'l' {
            (decset_all(g, ps, false, 0), seq![])
        } else if action == 'u' {
            (g, kitty_flags_reply(g))
        } else {
            (g, seq![])
        }
    } else if one_byte(inter, 0x3e) {
        if action == 'c' {
            (g, da2_reply())
        } else if action == 'q' {
            (g, xtversion_reply())
        } else if action == 'm' {
            if p0 == 4 {
                let level = param_or(ps, 1, 0) as u8;
                (
                    keyboard_set(
                        g,
                        KeyboardModel {
                            modify_other_keys: if level < 2 { level } else { 2 },
                            ..g.keyboard
                        },
                    ),
                    seq![],
                )
            } else {
                (g, seq![])
            }
        } else if action == 'u' {
            (kitty_pushed(g, p0 as u32), seq![])
        } else {
            (g, seq![])
        }
    } else if one_byte(inter, 0x3d) {
        if action == 'c' {
            (g, da3_reply())
        } else if action == 'u' {
            let flags = p0 as u32;
            let mode = param_or(ps, 1, 1);
            let k = g.keyboard;
            if mode == 1 {
                (keyboard_set(g, KeyboardModel { kitty_flags: flags, ..k }), seq![])
            } else if mode == 2 {
                (keyboard_set(g, KeyboardModel { kitty_flags: k.kitty_flags | flags, ..k }), seq![])
            } else if mode == 3 {
                (keyboard_set(g, KeyboardModel { kitty_flags: k.kitty_flags & !flags, ..k }), seq![])
            } else {
                (g, seq![])
            }
        } else {
            (g, seq![])
        }
    } else if one_byte(inter, 0x3c) {
        if action == 'u' {
            (kitty_popped(g, p0), seq![])
        } else {
            (g, seq![])
        }
    } else if one_byte(inter, 0x20) {
        if action == 'q' {
            match decscusr(p0) {
                Some((style, blink)) => (
                    GridModel { cursor: CursorAppearance { style, blink }, ..g },
                    seq![],
                ),
                None => (g, seq![]),
            }
        } else {
            (g, seq![])
        }
    } else if one_byte(inter, 0x24) || (inter.len() == 2 && inter[0] == 0x3f && inter[1] == 0x24) {
        if action == 'p' {
            (g, decrqm_reply(g, p0, inter.len() == 2))
        } else {
            (g, seq![])
        }
    } else {
        (g, seq![])
    }
}

/// A CSI sequence: its effect on the grid and the reply it owes.
pub open spec fn csi_effect(
    g: GridModel,
    ps: Seq<Seq<u16>>,
    inter: Seq<u8>,
    action: char,
    cw: u32,
    ch: u32,
) -> (GridModel, Seq<u8>) {
    if inter.len() == 0 {
        csi_plain(g, ps, action, cw, ch)
    } else {
        csi_marked(g, ps, inter, action)
    }
}

/// The sequence is defined on this grid: parameters as the VT parser
/// delivers them, character editing at a cursor where it is defined, and
/// repeats whose every write is defined.
pub open spec fn csi_defined(g: GridModel, ps: Seq<Seq<u16>>, inter: Seq<u8>, action: char) -> bool {
    &&& params_nonempty(ps)
    &&& inter.len() == 0 && (action == 'P' || action == '@' || action == 'X') ==> char_edit_defined(g)
    &&& inter.len() == 0 && action == 'b' ==> repeat_defined(g, pod(param_or(ps, 0, 0), 1) as nat)
}

/// Appends a CSI reply `ESC [ body fin`.
fn push_csi_prefix(out: &mut Vec<u8>)
    ensures
        final(out)@ == old(out)@ + seq![0x1bu8, 0x5bu8],
{
    out.push(0x1b);
    out.push(0x5b);
    proof {
        assert(out@ =~= old(out)@ + seq![0x1bu8, 0x5bu8]);
    }
}

/// Appends `a;b`.
fn push_two_numbers(out: &mut Vec<u8>, a: usize, b: usize)
    ensures
        final(out)@ == old(out)@ + two_numbers(a as nat, b as nat),
{
    push_decimal_usize(out, a);
    out.push(0x3b);
    push_decimal_usize(out, b);
    proof {
        assert(out@ =~= old(out)@ + two_numbers(a as nat, b as nat));
    }
}

/// Appends a constant byte string.
fn push_seq(out: &mut Vec<u8>, bytes: &[u8])
    ensures
        final(out)@ == old(out)@ + bytes@,
{
    push_all(out, bytes);
}

/// Replies of XTWINOPS.
fn reply_winops(grid: &Grid, out: &mut Vec<u8>, cw: u32, ch: u32, op: u16)
    requires
        grid.wf(),
    ensures
        final(out)@ == old(out)@ + winops_reply(
            grid@,
            op,
            cw,
            ch,
        ),
{
    let cols = grid.cols();
    let rows = grid.rows();
    let cw = cw;
    let ch = ch;
    if op == 14 {
        let w = (cols as u32).wrapping_mul(cw);
        let h = (rows as u32).wrapping_mul(ch);
        push_csi_prefix(out);
        push_seq(out, &[0x34, 0x3b]);
        push_two_numbers(out, h as usize, w as usize);
        out.push(0x74);
        proof {
            assert([0x34u8, 0x3bu8]@ =~= seq![0x34u8, 0x3bu8]);
            assert(out@ =~= old(out)@ + winops_reply(
                grid@,
                op,
                cw,
                ch,
            ));
        }
    } else if op == 16 {
        push_csi_prefix(out);
        push_seq(out, &[0x36, 0x3b]);
        push_two_numbers(out, ch as usize, cw as usize);
        out.push(0x74);
        proof {
            assert([0x36u8, 0x3bu8]@ =~= seq![0x36u8, 0x3bu8]);
            assert(out@ =~= old(out)@ + winops_reply(
                grid@,
                op,
                cw,
                ch,
            ));
        }
    } else if op == 18 {
        push_csi_prefix(out);
        push_seq(out, &[0x38, 0x3b]);
        push_two_numbers(out, rows, cols);
        out.push(0x74);
        proof {
            assert([0x38u8, 0x3bu8]@ =~= seq![0x38u8, 0x3bu8]);
            assert(out@ =~= old(out)@ + winops_reply(
                grid@,
                op,
                cw,
                ch,
            ));
        }
    } else {
        proof {
            assert(out@ =~= old(out)@ + winops_reply(
                grid@,
                op,
                cw,
                ch,
            ));
        }
    }
}

/// DECRQM reply.
fn reply_decrqm(grid: &Grid, out: &mut Vec<u8>, mode: u16, dec: bool)
    requires
        grid.wf(),
    ensures
        final(out)@ == old(out)@ + decrqm_reply(
            grid@,
            mode,
            dec,
        ),
{
    let pm: usize = if dec {
        match dec_mode_state_exec(grid, mode) {
            Some(true) => 1,
            Some(false) => 2,
            None => 0,
        }
    } else if mode == 4 {
        2
    } else {
        0
    };
    push_csi_prefix(out);
    if dec {
        out.push(0x3f);
    }
    push_two_numbers(out, mode as usize, pm);
    out.push(0x24);
    out.push(0x79);
    proof {
        assert(out@ =~= old(out)@ + decrqm_reply(
            grid@,
            mode,
            dec,
        ));
    }
}

/// CSI cursor movements, saves and the scroll region.
#[verifier::spinoff_prover]
fn csi_cursor(grid: &mut Grid, params: &Vec<Vec<u16>>, action: char)
    requires
        old(grid).wf(),
        action == 'A' || action == 'B' || action == 'C' || action == 'D' || action == 'E'
            || action == 'F' || action == 'H' || action == 'f' || action == 'G' || action == 'd'
            || action == 's' || action == 'u' || action == 'r',
    ensures
        final(grid).wf(),
        final(grid)@ == csi_plain_grid(old(grid)@, params_view(params@), action),
{
    let p0 = param_value(params, 0, 0);
    let n = param_or_default(p0, 1);
    match action {
        'A' => grid.move_cursor_up(n),
        'B' => grid.move_cursor_down(n),
        'C' => grid.move_cursor_forward(n),
        'D' => grid.move_cursor_backward(n),
        'E' => {
            grid.move_cursor_down(n);
            grid.carriage_return();
        },
        'F' => {
            grid.move_cursor_up(n);
            grid.carriage_return();
        },
        'H' | 'f' => {
            let col = if params.len() > 1 && params[1].len() > 0 {
                param_or_default(params[1][0], 1)
            } else {
                1
            };
            grid.move_cursor_to(n, col);
        },
        'G' => {
            let row = grid.cursor_row() + 1;
            grid.move_cursor_to(row, n);
        },
        'd' => {
            let col = grid.cursor_col() + 1;
            grid.move_cursor_to(n, col);
        },
        's' => grid.save_cursor(),
        'u' => grid.restore_cursor(),
        _ => {
            let bottom = param_value(params, 1, 0);
            grid.set_scroll_region(p0 as usize, bottom as usize);
        },
    }
}

/// CSI erasing, line and character editing, scrolling, repeat and SGR.
#[verifier::spinoff_prover]
fn csi_edit(grid: &mut Grid, params: &Vec<Vec<u16>>, action: char)
    requires
        old(grid).wf(),
        csi_defined(old(grid)@, params_view(params@), seq![], action),
        action == 'J' || action == 'K' || action == 'L' || action == 'M' || action == 'P'
            || action == '@' || action == 'X' || action == 'S' || action == 'T' || action == 'b'
            || action == 'm',
    ensures
        final(grid).wf(),
        final(grid)@ == csi_plain_grid(old(grid)@, params_view(params@), action),
{
    let p0 = param_value(params, 0, 0);
    let n = param_or_default(p0, 1);
    match action {
        'J' => grid.erase_in_display(p0),
        'K' => grid.erase_in_line(p0),
        'L' => grid.insert_lines(n),
        'M' => grid.delete_lines(n),
        'P' => grid.delete_chars(n),
        '@' => grid.insert_chars(n),
        'X' => grid.erase_chars(n),
        'S' => grid.scroll_up(n),
        'T' => grid.scroll_down(n),
        'b' => grid.repeat_char(n),
        _ => handle_sgr(grid, params),
    }
}

/// CSI queries: status and cursor reports, device attributes, window
/// sizes and mode requests.
#[verifier::spinoff_prover]
fn csi_query(grid: &Grid, out: &mut Vec<u8>, cw: u32, ch: u32, params: &Vec<Vec<u16>>, action: char)
    requires
        grid.wf(),
        action == 'n' || action == 'c' || action == 't' || action == 'p',
    ensures
        csi_plain(
            grid@,
            params_view(params@),
            action,
            cw,
            ch,
        ).0 == grid@,
        final(out)@ == old(out)@ + csi_plain(
            grid@,
            params_view(params@),
            action,
            cw,
            ch,
        ).1,
{
    let p0 = param_value(params, 0, 0);
    match action {
        'n' => {
            if p0 == 5 {
                push_seq(out, &[0x1b, 0x5b, 0x30, 0x6e]);
                proof {
                    assert([0x1bu8, 0x5bu8, 0x30u8, 0x6eu8]@ =~= status_ok_reply());
                }
            } else if p0 == 6 {
                let row = grid.cursor_row() + 1;
                let col = grid.cursor_col() + 1;
                push_csi_prefix(out);
                push_two_numbers(out, row, col);
                out.push(0x52);
                proof {
                    assert(out@ =~= old(out)@ + cursor_report(
                        grid@,
                    ));
                }
            } else {
                proof {
                    assert(out@ =~= old(out)@ + seq![]);
                }
            }
        },
        'c' => {
            push_seq(
                out,
                &[
                    0x1b,
                    0x5b,
                    0x3f,
                    0x36,
                    0x32,
                    0x3b,
                    0x31,
                    0x3b,
                    0x34,
                    0x3b,
                    0x32,
                    0x32,
                    0x3b,
                    0x32,
                    0x39,
                    0x63,
                ],
            );
            proof {
                assert(out@ =~= old(out)@ + da1_reply());
            }
        },
        't' => reply_winops(grid, out, cw, ch, p0),
        _ => reply_decrqm(grid, out, p0, false),
    }
}

/// A CSI sequence without intermediates.
fn csi_plain_exec(grid: &mut Grid, out: &mut Vec<u8>, cw: u32, ch: u32, params: &Vec<Vec<u16>>, action: char)
    requires
        old(grid).wf(),
        csi_defined(old(grid)@, params_view(params@), seq![], action),
    ensures
        final(grid).wf(),
        ({
            let (g, reply) = csi_plain(
                old(grid)@,
                params_view(params@),
                action,
                cw,
                ch,
            );
            final(grid)@ == g && final(out)@ == old(out)@
                + reply
        }),
{
    match action {
        'A' | 'B' | 'C' | 'D' | 'E' | 'F' | 'H' | 'f' | 'G' | 'd' | 's' | 'u' | 'r' => {
            csi_cursor(grid, params, action);
            proof {
                assert(out@ =~= old(out)@ + Seq::<u8>::empty());
            }
        },
        'J' | 'K' | 'L' | 'M' | 'P' | '@' | 'X' | 'S' | 'T' | 'b' | 'm' => {
            csi_edit(grid, params, action);
            proof {
                assert(out@ =~= old(out)@ + Seq::<u8>::empty());
            }
        },
        'n' | 'c' | 't' | 'p' => csi_query(grid, out, cw, ch, params, action),
        _ => {
            proof {
                assert(out@ =~= old(out)@ + Seq::<u8>::empty());
            }
        },
    }
}


/// Appends a constant reply and states that it is `reply`.
fn push_reply(out: &mut Vec<u8>, bytes: &[u8], reply: Ghost<Seq<u8>>)
    requires
        bytes@ == reply@,
    ensures
        final(out)@ == old(out)@ + reply@,
{
    push_all(out, bytes);
}

/// CSI sequences with the `?` marker: DA1, DEC private modes and the
/// Kitty keyboard flags query.
#[verifier::spinoff_prover]
fn csi_private(grid: &mut Grid, out: &mut Vec<u8>, params: &Vec<Vec<u16>>, action: char)
    requires
        old(grid).wf(),
    ensures
        final(grid).wf(),
        ({
            let (g, reply) = csi_marked(
                old(grid)@,
                params_view(params@),
                seq![0x3fu8],
                action,
            );
            final(grid)@ == g && final(out)@ == old(out)@
                + reply
        }),
{
    match action {
        'c' => {
            push_reply(
                    out,
                &[
                    0x1b,
                    0x5b,
                    0x3f,
                    0x36,
                    0x32,
                    0x3b,
                    0x31,
                    0x3b,
                    0x34,
                    0x3b,
                    0x32,
                    0x32,
                    0x3b,
                    0x32,
                    0x39,
                    0x63,
                ],
                Ghost(da1_reply()),
            );
        },
        'h' => {
            handle_decset_all(grid, params, true);
            proof {
                assert(out@ =~= old(out)@ + Seq::<u8>::empty());
            }
        },
        'l' => {
            handle_decset_all(grid, params, false);
            proof {
                assert(out@ =~= old(out)@ + Seq::<u8>::empty());
            }
        },
        'u' => {
            let flags = grid.kitty_keyboard_flags();
            push_csi_prefix(out);
            out.push(0x3f);
            push_decimal(out, flags);
            out.push(0x75);
            proof {
                assert(out@ =~= old(out)@ + kitty_flags_reply(
                    old(grid)@,
                ));
            }
        },
        _ => {
            proof {
                assert(out@ =~= old(out)@ + Seq::<u8>::empty());
            }
        },
    }
}

/// CSI sequences with the `>` marker: DA2, XTVERSION, modifyOtherKeys
/// and the Kitty keyboard push.
#[verifier::spinoff_prover]
#[verifier::rlimit(40)]
fn csi_greater(grid: &mut Grid, out: &mut Vec<u8>, params: &Vec<Vec<u16>>, action: char)
    requires
        old(grid).wf(),
    ensures
        final(grid).wf(),
        ({
            let (g, reply) = csi_marked(
                old(grid)@,
                params_view(params@),
                seq![0x3eu8],
                action,
            );
            final(grid)@ == g && final(out)@ == old(out)@
                + reply
        }),
{
    let p0 = param_value(params, 0, 0);
    match action {
        'c' => {
            push_reply(
                    out,
                &[0x1b, 0x5b, 0x3e, 0x31, 0x3b, 0x31, 0x30, 0x30, 0x3b, 0x30, 0x63],
                Ghost(da2_reply()),
            );
        },
        'q' => {
            push_reply(
                    out,
                &[
                    0x1b,
                    0x50,
                    0x3e,
                    0x7c,
                    0x62,
                    0x63,
                    0x6f,
                    0x6e,
                    0x20,
                    0x30,
                    0x2e,
                    0x31,
                    0x2e,
                    0x30,
                    0x1b,
                    0x5c,
                ],
                Ghost(xtversion_reply()),
            );
        },
        'm' => {
            if p0 == 4 {
                #[verifier::truncate]
                let level = param_value(params, 1, 0) as u8;
                let level = if level < 2 {
                    level
                } else {
                    2
                };
                grid.set_modify_other_keys(level);
            }
            proof {
                assert(out@ =~= old(out)@ + Seq::<u8>::empty());
            }
        },
        'u' => {
            grid.kitty_push(p0 as u32);
            proof {
                assert(out@ =~= old(out)@ + Seq::<u8>::empty());
            }
        },
        _ => {
            proof {
                assert(out@ =~= old(out)@ + Seq::<u8>::empty());
            }
        },
    }
}

/// CSI sequences with the `=` marker: DA3 and the Kitty keyboard set.
#[verifier::spinoff_prover]
fn csi_equals(grid: &mut Grid, out: &mut Vec<u8>, params: &Vec<Vec<u16>>, action: char)
    requires
        old(grid).wf(),
    ensures
        final(grid).wf(),
        ({
            let (g, reply) = csi_marked(
                old(grid)@,
                params_view(params@),
                seq![0x3du8],
                action,
            );
            final(grid)@ == g && final(out)@ == old(out)@
                + reply
        }),
{
    let p0 = param_value(params, 0, 0);
    match action {
        'c' => {
            push_reply(
                    out,
                &[
                    0x1b,
                    0x50,
                    0x21,
                    0x7c,
                    0x30,
                    0x30,
                    0x30,
                    0x30,
                    0x30,
                    0x30,
                    0x30,
                    0x30,
                    0x1b,
                    0x5c,
                ],
                Ghost(da3_reply()),
            );
        },
        'u' => {
            let flags = p0 as u32;
            let mode = param_value(params, 1, 1);
            let cur = grid.kitty_keyboard_flags();
            if mode == 1 {
                grid.set_kitty_flags(flags);
            } else if mode == 2 {
                grid.set_kitty_flags(cur | flags);
            } else if mode == 3 {
                grid.set_kitty_flags(cur & !flags);
            }
            proof {
                assert(out@ =~= old(out)@ + Seq::<u8>::empty());
            }
        },
        _ => {
            proof {
                assert(out@ =~= old(out)@ + Seq::<u8>::empty());
            }
        },
    }
}

/// CSI sequences with the other intermediates: the Kitty keyboard pop,
/// DECSCUSR and DECRQM.
#[verifier::spinoff_prover]
fn csi_other_marked(grid: &mut Grid, out: &mut Vec<u8>, params: &Vec<Vec<u16>>, intermediates: &[u8], action: char)
    requires
        old(grid).wf(),
        intermediates@.len() > 0,
        !one_byte(intermediates@, 0x3f),
        !one_byte(intermediates@, 0x3e),
        !one_byte(intermediates@, 0x3d),
    ensures
        final(grid).wf(),
        ({
            let (g, reply) = csi_marked(
                old(grid)@,
                params_view(params@),
                intermediates@,
                action,
            );
            final(grid)@ == g && final(out)@ == old(out)@
                + reply
        }),
{
    let p0 = param_value(params, 0, 0);
    let n = intermediates.len();
    let i0 = intermediates[0];
    if n == 1 && i0 == 0x3c {
        if action == 'u' {
            grid.kitty_pop(p0);
        }
    } else if n == 1 && i0 == 0x20 {
        if action == 'q' {
            match cursor_style_from_decscusr(p0) {
                Some((style, blink)) => {
                    grid.set_cursor_appearance(CursorAppearance { style, blink });
                },
                None => {},
            }
        }
    } else if action == 'p' && ((n == 1 && i0 == 0x24) || (n == 2 && i0 == 0x3f
        && intermediates[1] == 0x24)) {
        reply_decrqm(grid, out, p0, n == 2);
        return;
    }
    proof {
        assert(out@ =~= old(out)@ + Seq::<u8>::empty());
    }
}

impl Terminal {
    /// A CSI sequence as the VT parser delivers it: its parameters (each a
    /// list of colon-separated sub-parameters), intermediate bytes and final
    /// character. The grid changes as `csi_effect` states and the reply is
    /// appended to `pty_response`.
    pub fn csi_dispatch(&mut self, params: &Vec<Vec<u16>>, intermediates: &[u8], action: char)
        requires
            old(self).wf(),
            csi_defined(old(self).grid@, params_view(params@), intermediates@, action),
        ensures
            final(self).wf(),
            ({
                let (g, reply) = csi_effect(
                    old(self).grid@,
                    params_view(params@),
                    intermediates@,
                    action,
                    old(self).cell_width,
                    old(self).cell_height,
                );
                final(self).grid@ == g && final(self).pty_response@ == old(self).pty_response@
                    + reply
            }),
            final(self).same_apart_from_grid_and_reply(*old(self)),
    {
        let n = intermediates.len();
        if n == 0 {
            proof {
                assert(intermediates@ =~= Seq::<u8>::empty());
            }
            csi_plain_exec(&mut self.grid, &mut self.pty_response, self.cell_width, self.cell_height, params, action);
        } else if n == 1 && intermediates[0] == 0x3f {
            proof {
                assert(intermediates@ =~= seq![0x3fu8]);
            }
            csi_private(&mut self.grid, &mut self.pty_response, params, action);
        } else if n == 1 && intermediates[0] == 0x3e {
            proof {
                assert(intermediates@ =~= seq![0x3eu8]);
            }
            csi_greater(&mut self.grid, &mut self.pty_response, params, action);
        } else if n == 1 && intermediates[0] == 0x3d {
            proof {
                assert(intermediates@ =~= seq![0x3du8]);
            }
            csi_equals(&mut self.grid, &mut self.pty_response, params, action);
        } else {
            csi_other_marked(&mut self.grid, &mut self.pty_response, params, intermediates, action);
        }
    }
}


// ============================================================================
// C0 controls, printable characters and ESC sequences
// ============================================================================
/// The grid after the C0 control `byte`: BS, HT, LF/VT/FF, CR and BEL act;
/// the others are ignored.
pub open spec fn executed(g: GridModel, byte: u8) -> GridModel {
    if byte == 0x08 {
        GridModel { cursor_col: sat_sub(g.cursor_col as int, 1), ..g }
    } else if byte == 0x09 {
        GridModel { cursor_col: next_tab_stop(g.cursor_col, g.cols), ..g }
    } else if byte == 0x0a || byte == 0x0b || byte == 0x0c {
        after_linefeed(g)
    } else if byte == 0x0d {
        cursor_home_col(g)
    } else if byte == 0x07 {
        GridModel { bell_triggered: true, ..g }
    } else {
        g
    }
}

/// The grid after `ESC byte` with the intermediates `inter`: IND, NEL, RI,
/// the full reset RIS (a fresh grid of the same size and scrollback
/// limit), DECSC and DECRC; the others are ignored.
pub open spec fn esc_effect(g: GridModel, inter: Seq<u8>, byte: u8) -> GridModel {
    if inter.len() != 0 {
        g
    } else if byte == 0x44 {
        after_linefeed(g)
    } else if byte == 0x45 {
        after_linefeed(cursor_home_col(g))
    } else if byte == 0x4d {
        after_reverse_index(g)
    } else if byte == 0x63 {
        initial_grid(g.cols, g.rows, g.max_scrollback)
    } else if byte == 0x37 {
        cursor_saved(g)
    } else if byte == 0x38 {
        cursor_restored(g)
    } else {
        g
    }
}

impl Terminal {
    /// A printable character, written at the cursor.
    pub fn print(&mut self, c: char)
        requires
            old(self).wf(),
            put_char_defined(old(self).grid@, c),
        ensures
            final(self).wf(),
            final(self).grid@ == after_put_char(old(self).grid@, c),
            final(self).pty_response == old(self).pty_response,
            final(self).same_apart_from_grid_and_reply(*old(self)),
    {
        self.grid.put_char(c);
    }

    /// A C0 control character.
    pub fn execute(&mut self, byte: u8)
        requires
            old(self).wf(),
        ensures
            final(self).wf(),
            final(self).grid@ == executed(old(self).grid@, byte),
            final(self).pty_response == old(self).pty_response,
            final(self).same_apart_from_grid_and_reply(*old(self)),
    {
        match byte {
            0x08 => self.grid.backspace(),
            0x09 => self.grid.tab(),
            0x0a | 0x0b | 0x0c => self.grid.linefeed(),
            0x0d => self.grid.carriage_return(),
            0x07 => self.grid.set_bell(true),
            _ => {},
        }
    }

    /// An ESC sequence with its intermediates and final byte.
    pub fn esc_dispatch(&mut self, intermediates: &[u8], byte: u8)
        requires
            old(self).wf(),
        ensures
            final(self).wf(),
            final(self).grid@ == esc_effect(old(self).grid@, intermediates@, byte),
            final(self).pty_response == old(self).pty_response,
            final(self).same_apart_from_grid_and_reply(*old(self)),
    {
        if intermediates.len() != 0 {
            return;
        }
        match byte {
            0x44 => self.grid.linefeed(),
            0x45 => {
                self.grid.carriage_return();
                self.grid.linefeed();
            },
            0x4d => self.grid.reverse_index(),
            0x63 => {
                let cols = self.grid.cols();
                let rows = self.grid.rows();
                let max_scrollback = self.grid.max_scrollback();
                self.grid = Grid::with_scrollback(cols, rows, max_scrollback);
            },
            0x37 => self.grid.save_cursor(),
            0x38 => self.grid.restore_cursor(),
            _ => {},
        }
    }
}

impl Terminal {
    /// Whether [`Terminal::print`] of `c` is defined here.
    pub fn print_is_defined(&self, c: char) -> (r: bool)
        requires
            self.wf(),
        ensures
            r == put_char_defined(self.grid@, c),
    {
        self.grid.put_char_is_defined(c)
    }

    /// Whether [`Terminal::csi_dispatch`] of this sequence is defined here.
    pub fn csi_is_defined(&self, params: &Vec<Vec<u16>>, intermediates: &[u8], action: char) -> (r:
        bool)
        requires
            self.wf(),
        ensures
            r == csi_defined(self.grid@, params_view(params@), intermediates@, action),
    {
        let ghost ps = params_view(params@);
        let mut i: usize = 0;
        while i < params.len()
            invariant
                0 <= i <= params@.len(),
                ps == params_view(params@),
                forall|j: int| 0 <= j < i ==> #[trigger] ps[j].len() >= 1,
            decreases params@.len() - i,
        {
            if params[i].len() == 0 {
                proof {
                    assert(ps[i as int].len() == 0);
                }
                return false;
            }
            i = i + 1;
        }
        if intermediates.len() == 0 && (action == 'P' || action == '@' || action == 'X') {
            let row = self.grid.cursor_row();
            let col = self.grid.cursor_col();
            let cols = self.grid.cols();
            let rows = self.grid.rows();
            return col < cols || (col == cols && row + 1 < rows);
        }
        if intermediates.len() == 0 && action == 'b' {
            let n = param_or_default(param_value(params, 0, 0), 1);
            return self.grid.repeat_is_defined(n);
        }
        true
    }
}

} // verus!
