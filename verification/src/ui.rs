//! Decisions of the user interface that need no device: which glyphs form
//! colour transitions, how Shift+arrow keys extend the selection, and which
//! DRM card to open.

use vstd::prelude::*;
use vstd::string::StrSliceExecFns;

use crate::terminal::selection::Selection;
use crate::terminal::term::Terminal;
use crate::terminal::textops::string_from_chars;

verus! {

/// A Powerline symbol (U+E0B0 to U+E0D4) or a block element (U+2580 to
/// U+259F): glyphs that make a transition between background colours.
pub open spec fn transition_char(ch: char) -> bool {
    let cp = ch as u32;
    (0xE0B0 <= cp <= 0xE0D4) || (0x2580 <= cp <= 0x259F)
}

/// Whether `ch` is a transition glyph ([`transition_char`]).
pub fn is_transition_char(ch: char) -> (r: bool)
    ensures
        r == transition_char(ch),
{
    let cp = ch as u32;
    (0xE0B0 <= cp && cp <= 0xE0D4) || (0x2580 <= cp && cp <= 0x259F)
}

/// evdev key codes of the keys that move a selection's end.
pub const KEY_LEFT: u32 = 105;
pub const KEY_RIGHT: u32 = 106;
pub const KEY_UP: u32 = 103;
pub const KEY_DOWN: u32 = 108;
pub const KEY_HOME: u32 = 102;
pub const KEY_END: u32 = 107;

/// The selection with its end moved by a key, on a screen of `cols` by
/// `rows` cells: left and right step one cell and cross line ends, up and
/// down step one row within the screen, home and end go to the line's ends;
/// other keys leave it.
pub open spec fn selection_key_moved(s: Selection, keycode: u32, cols: nat, rows: nat) -> Selection {
    if keycode == KEY_LEFT {
        if s.end_col > 0 {
            Selection { end_col: (s.end_col - 1) as usize, ..s }
        } else if s.end_row > 0 {
            Selection {
                end_row: (s.end_row - 1) as usize,
                end_col: if cols > 0 {
                    (cols - 1) as usize
                } else {
                    0
                },
                ..s
            }
        } else {
            s
        }
    } else if keycode == KEY_RIGHT {
        if s.end_col < cols - 1 {
            Selection { end_col: (s.end_col + 1) as usize, ..s }
        } else if s.end_row < rows - 1 {
            Selection { end_row: (s.end_row + 1) as usize, end_col: 0, ..s }
        } else {
            s
        }
    } else if keycode == KEY_UP {
        Selection {
            end_row: if s.end_row > 0 {
                (s.end_row - 1) as usize
            } else {
                0
            },
            ..s
        }
    } else if keycode == KEY_DOWN {
        Selection {
            end_row: if s.end_row + 1 < rows {
                (s.end_row + 1) as usize
            } else {
                (rows - 1) as usize
            },
            ..s
        }
    } else if keycode == KEY_HOME {
        Selection { end_col: 0, ..s }
    } else if keycode == KEY_END {
        Selection {
            end_col: if cols > 0 {
                (cols - 1) as usize
            } else {
                0
            },
            ..s
        }
    } else {
        s
    }
}

/// The selection a key extends: the current one, or an empty one at the
/// cursor.
pub open spec fn selection_or_cursor(t: Terminal) -> Selection {
    match t.selection {
        Some(s) => s,
        None => Selection {
            anchor_row: t.grid@.cursor_row as usize,
            anchor_col: t.grid@.cursor_col as usize,
            end_row: t.grid@.cursor_row as usize,
            end_col: t.grid@.cursor_col as usize,
        },
    }
}

/// Moves the end of the selection (started at the cursor when there is
/// none) by a Shift+arrow, Home or End key, on lines of `cols` cells.
pub fn handle_selection_key(term: &mut Terminal, keycode: u32, cols: usize)
    requires
        old(term).wf(),
        cols >= 1,
    ensures
        final(term).wf(),
        final(term).selection == Some(
            selection_key_moved(
                selection_or_cursor(*old(term)),
                keycode,
                cols as nat,
                old(term).grid@.rows,
            ),
        ),
        *final(term) == (Terminal { selection: final(term).selection, ..*old(term) }),
{
    let cur_row = term.grid.cursor_row();
    let cur_col = term.grid.cursor_col();
    let rows = term.grid.rows();
    let s = match &term.selection {
        Some(s) => Selection {
            anchor_row: s.anchor_row,
            anchor_col: s.anchor_col,
            end_row: s.end_row,
            end_col: s.end_col,
        },
        None => Selection { anchor_row: cur_row, anchor_col: cur_col, end_row: cur_row, end_col: cur_col },
    };
    let mut end_row = s.end_row;
    let mut end_col = s.end_col;
    if keycode == KEY_LEFT {
        if end_col > 0 {
            end_col = end_col - 1;
        } else if end_row > 0 {
            end_row = end_row - 1;
            end_col = cols - 1;
        }
    } else if keycode == KEY_RIGHT {
        if end_col < cols - 1 {
            end_col = end_col + 1;
        } else if end_row < rows - 1 {
            end_row = end_row + 1;
            end_col = 0;
        }
    } else if keycode == KEY_UP {
        end_row = if end_row > 0 {
            end_row - 1
        } else {
            0
        };
    } else if keycode == KEY_DOWN {
        end_row = if end_row < rows - 1 {
            end_row + 1
        } else {
            rows - 1
        };
    } else if keycode == KEY_HOME {
        end_col = 0;
    } else if keycode == KEY_END {
        end_col = cols - 1;
    }
    term.selection = Some(
        Selection { anchor_row: s.anchor_row, anchor_col: s.anchor_col, end_row, end_col },
    );
}

/// The path of DRM card `i` (0 to 9): `/dev/dri/card` and the digit.
pub open spec fn card_path(i: nat) -> Seq<char> {
    seq!['/', 'd', 'e', 'v', '/', 'd', 'r', 'i', '/', 'c', 'a', 'r', 'd', (0x30 + i) as char]
}

/// The first of the cards `/dev/dri/card0` to `/dev/dri/card7` that exists,
/// from card `i` on, given which of them exist.
pub open spec fn first_card_from(present: Seq<bool>, i: nat) -> Option<nat>
    decreases 8 - i,
{
    if i >= 8 {
        None
    } else if i < present.len() && present[i as int] {
        Some(i)
    } else {
        first_card_from(present, i + 1)
    }
}

/// The digit character of `i` (0 to 9).
fn digit_char(i: u32) -> (c: char)
    requires
        i < 10,
    ensures
        c == (0x30 + i) as char,
{
    match i {
        0 => '0',
        1 => '1',
        2 => '2',
        3 => '3',
        4 => '4',
        5 => '5',
        6 => '6',
        7 => '7',
        8 => '8',
        _ => '9',
    }
}

/// The DRM device to open: the first card that exists among
/// `/dev/dri/card0` to `/dev/dri/card7` (`present[i]` tells whether card
/// `i` exists), as its path; `None` when there is none.
pub fn find_drm_device(present: &Vec<bool>) -> (r: Option<String>)
    ensures
        match r {
            Some(path) => first_card_from(present@, 0) matches Some(i) && path@ == card_path(i),
            None => first_card_from(present@, 0) is None,
        },
{
    let mut i: u32 = 0;
    while i < 8
        invariant
            0 <= i <= 8,
            first_card_from(present@, 0) == first_card_from(present@, i as nat),
        decreases 8 - i,
    {
        if (i as usize) < present.len() && present[i as usize] {
            let path: Vec<char> = vec!['/', 'd', 'e', 'v', '/', 'd', 'r', 'i', '/', 'c', 'a', 'r', 'd', digit_char(i)];
            proof {
                assert(path@ =~= card_path(i as nat));
            }
            return Some(string_from_chars(&path));
        }
        i = i + 1;
    }
    None
}

/// The characters of `s`.
fn str_chars(s: &str) -> (r: Vec<char>)
    ensures
        r@ == s@,
{
    let n = s.unicode_len();
    let mut out: Vec<char> = Vec::new();
    let mut i: usize = 0;
    while i < n
        invariant
            n == s@.len(),
            0 <= i <= n,
            out@ == s@.take(i as int),
        decreases n - i,
    {
        out.push(s.get_char(i));
        i = i + 1;
        proof {
            assert(out@ =~= s@.take(i as int));
        }
    }
    proof {
        assert(s@.take(n as int) =~= s@);
    }
    out
}

/// A path with a leading `~` replaced by the home directory, when one is
/// known; any other path as it is.
pub open spec fn expanded_path(path: Seq<char>, home: Option<Seq<char>>) -> Seq<char> {
    if path.len() == 0 || path[0] != '~' {
        path
    } else {
        match home {
            Some(h) => h + path.drop_first(),
            None => path,
        }
    }
}

/// Expands a leading `~` of `path` to `user_home`.
pub fn expand_path(path: &str, user_home: Option<&str>) -> (r: String)
    ensures
        r@ == expanded_path(
            path@,
            match user_home {
                Some(h) => Some(h@),
                None => None,
            },
        ),
{
    let p = str_chars(path);
    if p.len() == 0 || p[0] != '~' {
        return string_from_chars(&p);
    }
    match user_home {
        None => string_from_chars(&p),
        Some(h) => {
            let mut out = str_chars(h);
            let ghost hv = out@;
            let mut i: usize = 1;
            while i < p.len()
                invariant
                    1 <= i <= p@.len(),
                    out@ == hv + p@.subrange(1, i as int),
                decreases p@.len() - i,
            {
                out.push(p[i]);
                i = i + 1;
                proof {
                    assert(out@ =~= hv + p@.subrange(1, i as int));
                }
            }
            proof {
                assert(p@.subrange(1, p@.len() as int) =~= p@.drop_first());
            }
            string_from_chars(&out)
        },
    }
}

} // verus!
