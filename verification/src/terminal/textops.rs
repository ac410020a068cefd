//! What the terminal reads back from its cells: the cell shown at a
//! display position (live screen or scrollback), the text of a selection,
//! word and line selection, URL detection and search.

use vstd::prelude::*;

use crate::terminal::grid::{default_model, row_view, CellModel, Grid, GridModel};
use crate::terminal::grid::Cell;
use crate::terminal::selection::{row_entries, CopyModeState, SearchState, Selection};
use crate::terminal::grid::mark_rows_all;
use crate::terminal::term::Terminal;
use crate::terminal::osc::{lemma_encode_concat, lossy_string};
use vstd::utf8::{encode_scalar, encode_utf8};

verus! {

// ============================================================================
// Cells on display
// ============================================================================
/// The cell shown at display row `row`, column `col`, with the view
/// scrolled back by `off` lines: the live screen when not scrolled,
/// otherwise the last `off` scrollback lines (at most a screenful) above
/// the top of the screen; positions past the stored cells are blank.
pub open spec fn shown_cell(g: GridModel, off: nat, row: nat, col: nat) -> CellModel {
    if off == 0 {
        g.screen[row as int][col as int]
    } else {
        let shown = if off < g.rows {
            off
        } else {
            g.rows
        };
        if row < shown {
            let idx = g.scrollback.len() - off + row;
            if 0 <= idx < g.scrollback.len() && col < g.scrollback[idx].len() {
                g.scrollback[idx][col as int]
            } else {
                default_model()
            }
        } else if row - shown < g.rows {
            g.screen[row - shown][col as int]
        } else {
            default_model()
        }
    }
}

/// A display position can be read: inside the screen's columns, inside
/// its rows when not scrolled back, and scrolled back no further than the
/// scrollback reaches.
pub open spec fn shown_defined(g: GridModel, off: nat, row: nat, col: nat) -> bool {
    &&& col < g.cols
    &&& off == 0 ==> row < g.rows
    &&& off <= g.scrollback.len()
}

impl Terminal {
    /// The cell shown at a display position (see [`shown_cell`]), copied.
    pub fn display_cell(&self, display_row: usize, col: usize) -> (r: Cell)
        requires
            self.wf(),
            shown_defined(self.grid@, self.scroll_offset as nat, display_row as nat, col as nat),
        ensures
            r@ == shown_cell(self.grid@, self.scroll_offset as nat, display_row as nat, col as nat),
    {
        if self.scroll_offset == 0 {
            return self.grid.cell(display_row, col).duplicate();
        }
        let total = self.grid.scrollback_len();
        let rows = self.grid.rows();
        let shown = if self.scroll_offset < rows {
            self.scroll_offset
        } else {
            rows
        };
        if display_row < shown {
            let idx = total - self.scroll_offset + display_row;
            match self.grid.scrollback_row(idx) {
                Some(cells) => {
                    if col < cells.len() {
                        return cells[col].duplicate();
                    }
                },
                None => {},
            }
            return Cell::empty();
        }
        let grid_row = display_row - shown;
        if grid_row < rows {
            self.grid.cell(grid_row, col).duplicate()
        } else {
            Cell::empty()
        }
    }
}

// ============================================================================
// Line text and search
// ============================================================================
/// The text a cell contributes to its line: nothing for the second half
/// of a wide character, a space for an empty cell, else its grapheme.
pub open spec fn cell_text(c: CellModel) -> Seq<char> {
    if c.width == 0 {
        seq![]
    } else if c.grapheme.len() == 0 {
        seq![' ']
    } else {
        c.grapheme
    }
}

/// The text of the first `n` cells of a line.
pub open spec fn line_text_upto(cells: Seq<CellModel>, n: int) -> Seq<char>
    decreases n,
{
    if n <= 0 {
        seq![]
    } else {
        line_text_upto(cells, n - 1) + cell_text(cells[n - 1])
    }
}

/// The text of a line.
pub open spec fn line_text(cells: Seq<CellModel>) -> Seq<char> {
    line_text_upto(cells, cells.len() as int)
}

/// `q` occurs in `t` at `i`.
pub open spec fn occurs_at(t: Seq<char>, q: Seq<char>, i: int) -> bool {
    0 <= i && i + q.len() <= t.len() && t.subrange(i, i + q.len()) == q
}

/// The occurrences of `q` in `t` that start before `n`, in order, each as
/// (row, start, end) in characters.
pub open spec fn occurrences_upto(t: Seq<char>, q: Seq<char>, row: usize, n: int) -> Seq<(usize, usize, usize)>
    decreases n,
{
    if n <= 0 {
        seq![]
    } else {
        let prev = occurrences_upto(t, q, row, n - 1);
        if occurs_at(t, q, n - 1) {
            prev.push((row, (n - 1) as usize, (n - 1 + q.len()) as usize))
        } else {
            prev
        }
    }
}

/// The line with absolute number `r`: scrollback lines first, then the
/// screen rows.
pub open spec fn absolute_line(g: GridModel, r: int) -> Seq<CellModel> {
    if r < g.scrollback.len() {
        g.scrollback[r]
    } else {
        g.screen[r - g.scrollback.len()]
    }
}

/// The matches of `q` in the first `n` absolute lines.
pub open spec fn search_upto(g: GridModel, q: Seq<char>, n: int) -> Seq<(usize, usize, usize)>
    decreases n,
{
    if n <= 0 {
        seq![]
    } else {
        let t = line_text(absolute_line(g, n - 1));
        search_upto(g, q, n - 1) + occurrences_upto(t, q, (n - 1) as usize, t.len() as int)
    }
}

/// The matches of `q` in the scrollback and on the screen, line by line,
/// each line's left to right (overlapping occurrences included).
pub open spec fn search_results(g: GridModel, q: Seq<char>) -> Seq<(usize, usize, usize)> {
    search_upto(g, q, (g.scrollback.len() + g.rows) as int)
}

/// The text of a line of cells.
fn line_chars(cells: &[Cell]) -> (r: Vec<char>)
    ensures
        r@ == line_text(row_view(cells@)),
{
    let mut out: Vec<char> = Vec::new();
    let mut i: usize = 0;
    while i < cells.len()
        invariant
            0 <= i <= cells@.len(),
            out@ == line_text_upto(row_view(cells@), i as int),
        decreases cells@.len() - i,
    {
        let c = &cells[i];
        let ghost before = out@;
        if c.width != 0 {
            if c.grapheme.len() == 0 {
                out.push(' ');
            } else {
                let mut k: usize = 0;
                while k < c.grapheme.len()
                    invariant
                        0 <= k <= c.grapheme@.len(),
                        out@ == before + c.grapheme@.take(k as int),
                    decreases c.grapheme@.len() - k,
                {
                    out.push(c.grapheme[k]);
                    k = k + 1;
                    proof {
                        assert(out@ =~= before + c.grapheme@.take(k as int));
                    }
                }
                proof {
                    assert(c.grapheme@.take(c.grapheme@.len() as int) =~= c.grapheme@);
                }
            }
        }
        proof {
            assert(row_view(cells@)[i as int] == cells@[i as int]@);
            assert(out@ =~= line_text_upto(row_view(cells@), i + 1));
        }
        i = i + 1;
    }
    proof {
        assert(row_view(cells@).len() == cells@.len());
    }
    out
}

/// Whether `q` occurs in `t` at `i`.
fn occurs_at_exec(t: &Vec<char>, q: &Vec<char>, i: usize) -> (r: bool)
    ensures
        r == occurs_at(t@, q@, i as int),
{
    if i > t.len() || q.len() > t.len() - i {
        return false;
    }
    let mut k: usize = 0;
    while k < q.len()
        invariant
            i + q@.len() <= t.len(),
            0 <= k <= q@.len(),
            forall|j: int| 0 <= j < k ==> t@[i + j] == q@[j],
        decreases q@.len() - k,
    {
        if t[i + k] != q[k] {
            proof {
                assert(t@.subrange(i as int, i + q@.len())[k as int] != q@[k as int]);
            }
            return false;
        }
        k = k + 1;
    }
    proof {
        assert(t@.subrange(i as int, i + q@.len()) =~= q@);
    }
    true
}

/// Appends the occurrences of `q` in `t` on line `row`.
fn push_occurrences(out: &mut Vec<(usize, usize, usize)>, t: &Vec<char>, q: &Vec<char>, row: usize)
    requires
        q@.len() > 0,
    ensures
        final(out)@ == old(out)@ + occurrences_upto(t@, q@, row, t@.len() as int),
{
    let ghost o = out@;
    let mut i: usize = 0;
    while i < t.len()
        invariant
            q@.len() > 0,
            0 <= i <= t@.len(),
            out@ == o + occurrences_upto(t@, q@, row, i as int),
        decreases t@.len() - i,
    {
        if occurs_at_exec(t, q, i) {
            out.push((row, i, i + q.len()));
        }
        proof {
            assert(out@ =~= o + occurrences_upto(t@, q@, row, i + 1));
        }
        i = i + 1;
    }
}

/// The matches of `q` in the whole grid.
fn find_all(grid: &Grid, q: &Vec<char>) -> (r: Vec<(usize, usize, usize)>)
    requires
        grid.wf(),
        q@.len() > 0,
        grid@.scrollback.len() + grid@.rows <= usize::MAX,
    ensures
        r@ == search_results(grid@, q@),
{
    let sb = grid.scrollback_len();
    let rows = grid.rows();
    let cols = grid.cols();
    let mut out: Vec<(usize, usize, usize)> = Vec::new();
    let mut r: usize = 0;
    while r < sb
        invariant
            grid.wf(),
            q@.len() > 0,
            sb == grid@.scrollback.len(),
            0 <= r <= sb,
            out@ == search_upto(grid@, q@, r as int),
        decreases sb - r,
    {
        match grid.scrollback_row(r) {
            Some(cells) => {
                let t = line_chars(cells);
                push_occurrences(&mut out, &t, q, r);
            },
            None => {},
        }
        r = r + 1;
    }
    let mut row: usize = 0;
    while row < rows
        invariant
            grid.wf(),
            q@.len() > 0,
            sb == grid@.scrollback.len(),
            grid@.scrollback.len() + grid@.rows <= usize::MAX,
            rows == grid@.rows,
            cols == grid@.cols,
            0 <= row <= rows,
            out@ == search_upto(grid@, q@, (sb + row) as int),
        decreases rows - row,
    {
        let mut cells: Vec<Cell> = Vec::new();
        let mut c: usize = 0;
        while c < cols
            invariant
                grid.wf(),
                rows == grid@.rows,
                cols == grid@.cols,
                row < rows,
                0 <= c <= cols,
                cells@.len() == c,
                row_view(cells@) == grid@.screen[row as int].take(c as int),
            decreases cols - c,
        {
            let ghost before = cells@;
            let cell = grid.cell(row, c).duplicate();
            cells.push(cell);
            proof {
                assert forall|i: int| 0 <= i < c + 1 implies #[trigger] row_view(cells@)[i] == grid@.screen[row as int].take(
                    c + 1,
                )[i] by {
                    if i < c {
                        assert(cells@[i] == before[i]);
                        assert(row_view(before)[i] == grid@.screen[row as int].take(c as int)[i]);
                    }
                }
            }
            c = c + 1;
            proof {
                assert(row_view(cells@) =~= grid@.screen[row as int].take(c as int));
            }
        }
        proof {
            assert(grid@.screen[row as int].take(cols as int) =~= grid@.screen[row as int]);
            assert(absolute_line(grid@, (sb + row) as int) == grid@.screen[row as int]);
        }
        let t = line_chars(cells.as_slice());
        push_occurrences(&mut out, &t, q, sb + row);
        row = row + 1;
    }
    out
}

impl Terminal {
    /// Searches the scrollback and the screen for the query of the search
    /// in progress; the matches replace the former ones and the first
    /// becomes current. Nothing happens without a search or with an empty
    /// query.
    pub fn execute_search(&mut self)
        requires
            old(self).wf(),
            old(self).grid@.scrollback.len() + old(self).grid@.rows <= usize::MAX,
        ensures
            final(self).wf(),
            match old(self).search {
                Some(s) if s.query_seq().len() > 0 => final(self).search matches Some(t) && t.query_seq()
                    == s.query_seq() && t.match_list() == search_results(
                    old(self).grid@,
                    s.query_seq(),
                ) && t.current() == 0 && t.index_is_built() && *final(self) == (Terminal {
                    search: final(self).search,
                    ..*old(self)
                }),
                _ => *final(self) == *old(self),
            },
    {
        let q = match &self.search {
            Some(s) => {
                let q = s.query_chars();
                if q.len() == 0 {
                    return;
                }
                q
            },
            None => {
                return;
            },
        };
        let found = find_all(&self.grid, &q);
        match self.search.take() {
            Some(mut s) => {
                s.set_matches(found);
                self.search = Some(s);
            },
            None => {},
        }
    }
}

// ============================================================================
// Strings from characters
// ============================================================================
/// Appends the UTF-8 encoding of `c`.
fn push_utf8(out: &mut Vec<u8>, c: char)
    ensures
        final(out)@ == old(out)@ + encode_scalar(c as u32),
{
    let cp = c as u32;
    if cp <= 0x7f {
        out.push((cp & 0x7f) as u8);
    } else if cp <= 0x7ff {
        out.push(0xc0 | ((cp >> 6) & 0x1f) as u8);
        out.push(0x80 | (cp & 0x3f) as u8);
    } else if cp <= 0xffff {
        out.push(0xe0 | ((cp >> 12) & 0x0f) as u8);
        out.push(0x80 | ((cp >> 6) & 0x3f) as u8);
        out.push(0x80 | (cp & 0x3f) as u8);
    } else {
        out.push(0xf0 | ((cp >> 18) & 0x7) as u8);
        out.push(0x80 | ((cp >> 12) & 0x3f) as u8);
        out.push(0x80 | ((cp >> 6) & 0x3f) as u8);
        out.push(0x80 | (cp & 0x3f) as u8);
    }
    proof {
        vstd::utf8::char_is_scalar(c);
        assert(out@ =~= old(out)@ + encode_scalar(c as u32));
    }
}

/// The string of the characters `v`.
pub(crate) fn string_from_chars(v: &Vec<char>) -> (r: String)
    ensures
        r@ == v@,
{
    let mut bytes: Vec<u8> = Vec::new();
    let mut i: usize = 0;
    while i < v.len()
        invariant
            0 <= i <= v@.len(),
            bytes@ == encode_utf8(v@.take(i as int)),
        decreases v@.len() - i,
    {
        let c = v[i];
        push_utf8(&mut bytes, c);
        proof {
            let one = seq![c];
            lemma_encode_concat(v@.take(i as int), one);
            assert(v@.take(i + 1) =~= v@.take(i as int) + one);
            assert(one.drop_first() =~= Seq::<char>::empty());
            assert(one[0] == c);
            assert(encode_utf8(one) == encode_scalar(one[0] as u32) + encode_utf8(one.drop_first()));
            assert(encode_utf8(one) =~= encode_scalar(c as u32));
        }
        i = i + 1;
    }
    proof {
        assert(v@.take(v@.len() as int) =~= v@);
        vstd::utf8::encode_utf8_valid_utf8(v@);
        vstd::utf8::encode_utf8_decode_utf8(v@);
    }
    lossy_string(bytes.as_slice())
}

/// Unicode `White_Space` (what `char::is_whitespace` tests).
pub open spec fn is_white(c: char) -> bool {
    let u = c as u32;
    ||| 0x09 <= u <= 0x0d
    ||| u == 0x20
    ||| u == 0x85
    ||| u == 0xa0
    ||| u == 0x1680
    ||| 0x2000 <= u <= 0x200a
    ||| u == 0x2028
    ||| u == 0x2029
    ||| u == 0x202f
    ||| u == 0x205f
    ||| u == 0x3000
}

/// `char::is_whitespace`.
pub fn is_whitespace(c: char) -> (r: bool)
    ensures
        r == is_white(c),
{
    let u = c as u32;
    (0x09 <= u && u <= 0x0d) || u == 0x20 || u == 0x85 || u == 0xa0 || u == 0x1680 || (0x2000 <= u
        && u <= 0x200a) || u == 0x2028 || u == 0x2029 || u == 0x202f || u == 0x205f || u == 0x3000
}

/// `s` without its trailing whitespace (`str::trim_end`).
pub open spec fn trim_end(s: Seq<char>) -> Seq<char>
    decreases s.len(),
{
    if s.len() > 0 && is_white(s.last()) {
        trim_end(s.drop_last())
    } else {
        s
    }
}

/// Drops trailing whitespace.
fn trim_end_vec(v: &mut Vec<char>)
    ensures
        final(v)@ == trim_end(old(v)@),
{
    while v.len() > 0 && is_whitespace(v[v.len() - 1])
        invariant
            trim_end(v@) == trim_end(old(v)@),
        decreases v@.len(),
    {
        let ghost before = v@;
        v.pop();
        proof {
            assert(v@ =~= before.drop_last());
        }
    }
}

// ============================================================================
// Selection text
// ============================================================================
/// The cells' text of display row `row`, columns `from` up to `to`: the
/// graphemes of the cells that are not second halves of wide characters.
pub open spec fn row_chars(g: GridModel, off: nat, row: nat, from: nat, to: nat) -> Seq<char>
    decreases to - from,
{
    if to <= from {
        seq![]
    } else {
        let c = shown_cell(g, off, row, (to - 1) as nat);
        row_chars(g, off, row, from, (to - 1) as nat) + if c.width == 0 {
            seq![]
        } else {
            c.grapheme
        }
    }
}

/// The text of the selection rows `sr` to `sr + n - 1`, the selection
/// being `(sr, sc, er, ec)` with `ec` exclusive: each row's cells, every
/// row but the last with trailing whitespace dropped and a newline added.
pub open spec fn selection_rows(g: GridModel, off: nat, sr: nat, sc: nat, er: nat, ec: nat, n: nat) -> Seq<char>
    decreases n,
{
    if n == 0 {
        seq![]
    } else {
        let row = (sr + n - 1) as nat;
        let from = if row == sr {
            sc
        } else {
            0
        };
        let to = if row == er {
            if ec < g.cols {
                ec
            } else {
                g.cols
            }
        } else {
            g.cols
        };
        let t = selection_rows(g, off, sr, sc, er, ec, (n - 1) as nat) + row_chars(g, off, row, from, to);
        if row < er {
            trim_end(t) + seq!['\n']
        } else {
            t
        }
    }
}

/// The text of the selection, without trailing whitespace.
pub open spec fn selection_text(g: GridModel, off: nat, sel: Option<Selection>) -> Seq<char> {
    match sel {
        None => seq![],
        Some(s) => {
            let (sr, sc, er, ec) = s.spec_normalized();
            trim_end(selection_rows(g, off, sr as nat, sc as nat, er as nat, ec as nat, (er - sr + 1) as nat))
        },
    }
}

/// The selection lies where cells can be read: on the screen when not
/// scrolled back, and scrolled back no further than the scrollback.
pub open spec fn selection_readable(t: Terminal) -> bool {
    &&& t.scroll_offset <= t.grid@.scrollback.len()
    &&& t.scroll_offset == 0 ==> match t.selection {
        Some(s) => s.spec_normalized().2 < t.grid@.rows,
        None => true,
    }
}

impl Terminal {
    /// Appends the cells' text of a display row segment.
    fn push_row_chars(&self, out: &mut Vec<char>, row: usize, from: usize, to: usize)
        requires
            self.wf(),
            to <= self.grid@.cols,
            self.scroll_offset <= self.grid@.scrollback.len(),
            self.scroll_offset == 0 ==> row < self.grid@.rows,
        ensures
            final(out)@ == old(out)@ + row_chars(self.grid@, self.scroll_offset as nat, row as nat, from as nat, to as nat),
    {
        let ghost o = out@;
        let mut col = from;
        if to <= from {
            proof {
                assert(out@ =~= o + row_chars(self.grid@, self.scroll_offset as nat, row as nat, from as nat, to as nat));
            }
            return;
        }
        while col < to
            invariant
                self.wf(),
                from <= col <= to <= self.grid@.cols,
                self.scroll_offset <= self.grid@.scrollback.len(),
                self.scroll_offset == 0 ==> row < self.grid@.rows,
                out@ == o + row_chars(self.grid@, self.scroll_offset as nat, row as nat, from as nat, col as nat),
            decreases to - col,
        {
            let cell = self.display_cell(row, col);
            let ghost before = out@;
            if cell.width != 0 {
                let mut k: usize = 0;
                while k < cell.grapheme.len()
                    invariant
                        0 <= k <= cell.grapheme@.len(),
                        out@ == before + cell.grapheme@.take(k as int),
                    decreases cell.grapheme@.len() - k,
                {
                    out.push(cell.grapheme[k]);
                    k = k + 1;
                    proof {
                        assert(out@ =~= before + cell.grapheme@.take(k as int));
                    }
                }
                proof {
                    assert(cell.grapheme@.take(cell.grapheme@.len() as int) =~= cell.grapheme@);
                }
            }
            proof {
                assert(out@ =~= o + row_chars(self.grid@, self.scroll_offset as nat, row as nat, from as nat, (col + 1) as nat));
            }
            col = col + 1;
        }
    }

    /// The text in the selection: rows joined by newlines, trailing
    /// whitespace dropped from each row but the last and from the whole.
    pub fn get_selection_text(&self) -> (r: String)
        requires
            self.wf(),
            selection_readable(*self),
        ensures
            r@ == selection_text(self.grid@, self.scroll_offset as nat, self.selection),
    {
        let sel = match &self.selection {
            Some(s) => s,
            None => {
                return String::new();
            },
        };
        let (sr, sc, er, ec) = sel.normalized();
        let cols = self.grid.cols();
        let mut out: Vec<char> = Vec::new();
        let mut row = sr;
        while row < er
            invariant
                self.wf(),
                selection_readable(*self),
                self.selection == Some(*sel),
                (sr, sc, er, ec) == sel.spec_normalized(),
                sr <= er,
                cols == self.grid@.cols,
                sr <= row <= er,
                out@ == selection_rows(self.grid@, self.scroll_offset as nat, sr as nat, sc as nat, er as nat, ec as nat, (row - sr) as nat),
            decreases er - row,
        {
            let from = if row == sr {
                sc
            } else {
                0
            };
            self.push_row_chars(&mut out, row, from, cols);
            trim_end_vec(&mut out);
            out.push('\n');
            proof {
                assert((row + 1 - sr) as nat - 1 == (row - sr) as nat);
                assert(out@ =~= selection_rows(self.grid@, self.scroll_offset as nat, sr as nat, sc as nat, er as nat, ec as nat, (row + 1 - sr) as nat));
            }
            row = row + 1;
        }
        let from = if er == sr {
            sc
        } else {
            0
        };
        let to = if ec < cols {
            ec
        } else {
            cols
        };
        self.push_row_chars(&mut out, er, from, to);
        proof {
            assert((er + 1 - sr) as nat - 1 == (er - sr) as nat);
            assert(out@ =~= selection_rows(self.grid@, self.scroll_offset as nat, sr as nat, sc as nat, er as nat, ec as nat, (er - sr + 1) as nat));
        }
        trim_end_vec(&mut out);
        string_from_chars(&out)
    }
}

// ============================================================================
// Clipboard and selection
// ============================================================================
/// The terminal after copying the selection: a non-empty selection text
/// becomes the clipboard.
pub open spec fn selection_copied(old: Terminal, new: Terminal) -> bool {
    let t = selection_text(old.grid@, old.scroll_offset as nat, old.selection);
    if t.len() > 0 {
        new.clipboard@ == t && new == (Terminal {
            clipboard: new.clipboard,
            clipboard_changed: true,
            ..old
        })
    } else {
        new == old
    }
}

/// The grapheme of a cell ends a word: empty, a space or a tab.
pub open spec fn word_boundary(g: Seq<char>) -> bool {
    g.len() == 0 || g == seq![' '] || g == seq!['\t']
}

/// A cell stops a word: not the second half of a wide character, and a
/// word boundary.
pub open spec fn stops_word(c: CellModel) -> bool {
    c.width != 0 && word_boundary(c.grapheme)
}

/// The head of the wide character left of column `c`: the nearest column
/// before `c` that is not a second half, or column 0.
pub open spec fn head_left(cells: Seq<CellModel>, c: nat) -> nat
    decreases c,
{
    if c == 0 {
        0
    } else if cells[c - 1].width != 0 {
        (c - 1) as nat
    } else {
        head_left(cells, (c - 1) as nat)
    }
}

/// The first column of the word ending at `s`.
pub open spec fn word_start(cells: Seq<CellModel>, s: nat) -> nat
    decreases s,
{
    if s == 0 {
        0
    } else if stops_word(cells[s - 1]) {
        s
    } else {
        word_start(cells, (s - 1) as nat)
    }
}

/// The last column of the word starting at `e`, not past `last`.
pub open spec fn word_end(cells: Seq<CellModel>, e: nat, last: nat) -> nat
    decreases last - e,
{
    if e >= last {
        e
    } else if stops_word(cells[e + 1 as int]) {
        e
    } else {
        word_end(cells, (e + 1) as nat, last)
    }
}

/// The word selected by a double click at (`row`, `col`) of the screen,
/// if the clicked character is not blank.
pub open spec fn word_at(g: GridModel, row: nat, col: nat) -> Option<Selection> {
    let cells = g.screen[row as int];
    let click = if cells[col as int].width == 0 {
        head_left(cells, col)
    } else {
        col
    };
    let base = cells[click as int].grapheme;
    if base.len() == 0 || base == seq![' '] {
        None
    } else {
        Some(
            Selection {
                anchor_row: row as usize,
                anchor_col: word_start(cells, click) as usize,
                end_row: row as usize,
                end_col: word_end(cells, click, (g.cols - 1) as nat) as usize,
            },
        )
    }
}

/// Whether a grapheme is a word boundary.
fn is_word_boundary(g: &Vec<char>) -> (r: bool)
    ensures
        r == word_boundary(g@),
{
    let r = g.len() == 0 || (g.len() == 1 && (g[0] == ' ' || g[0] == '\t'));
    proof {
        if g@ == seq![' '] || g@ == seq!['\t'] {
            assert(g@.len() == 1);
        }
        if g.len() == 1 && g[0] == ' ' {
            assert(g@ =~= seq![' ']);
        }
        if g.len() == 1 && g[0] == '\t' {
            assert(g@ =~= seq!['\t']);
        }
    }
    r
}

impl Terminal {
    /// Sets the clipboard; it is marked changed, to be written out.
    pub fn set_clipboard(&mut self, text: &str)
        ensures
            final(self).clipboard@ == text@,
            *final(self) == (Terminal {
                clipboard: final(self).clipboard,
                clipboard_changed: true,
                ..*old(self)
            }),
    {
        self.clipboard = text.to_string();
        self.clipboard_changed = true;
    }

    /// Copies the selection text to the clipboard, unless it is empty.
    pub fn copy_selection(&mut self)
        requires
            old(self).wf(),
            selection_readable(*old(self)),
        ensures
            selection_copied(*old(self), *final(self)),
    {
        let text = self.get_selection_text();
        if !text.as_str().is_empty() {
            self.set_clipboard(text.as_str());
        }
    }

    /// Double click: selects the word at (`row`, `col`) of the screen and
    /// copies it; a click on blank clears the selection.
    pub fn select_word(&mut self, row: usize, col: usize)
        requires
            old(self).wf(),
            row < old(self).grid@.rows,
            col < old(self).grid@.cols,
            old(self).scroll_offset <= old(self).grid@.scrollback.len(),
        ensures
            final(self).wf(),
            match word_at(old(self).grid@, row as nat, col as nat) {
                None => *final(self) == (Terminal { selection: None, ..*old(self) }),
                Some(sel) => selection_copied(
                    Terminal { selection: Some(sel), ..*old(self) },
                    *final(self),
                ),
            },
    {
        let cols = self.grid.cols();
        let ghost cells = self.grid@.screen[row as int];
        let mut click = col;
        if self.grid.cell(row, col).width == 0 {
            let mut done = false;
            while click > 0 && !done
                invariant
                    self.wf(),
                    row < self.grid@.rows,
                    cols == self.grid@.cols,
                    cells == self.grid@.screen[row as int],
                    click <= col < cols,
                    done ==> head_left(cells, col as nat) == click,
                    !done ==> head_left(cells, col as nat) == head_left(cells, click as nat),
                decreases click + (if done { 0int } else { 1int }),
            {
                click = click - 1;
                if self.grid.cell(row, click).width != 0 {
                    done = true;
                }
            }
        }
        let base = self.grid.cell(row, click);
        let blank = base.grapheme.len() == 0 || (base.grapheme.len() == 1 && base.grapheme[0] == ' ');
        proof {
            if base.grapheme@ == seq![' '] {
                assert(base.grapheme@.len() == 1);
            }
            if base.grapheme.len() == 1 && base.grapheme@[0] == ' ' {
                assert(base.grapheme@ =~= seq![' ']);
            }
        }
        if blank {
            self.selection = None;
            return;
        }
        let mut start = click;
        let mut stop_left = false;
        while start > 0 && !stop_left
            invariant
                self.wf(),
                row < self.grid@.rows,
                cols == self.grid@.cols,
                cells == self.grid@.screen[row as int],
                start <= click < cols,
                stop_left ==> word_start(cells, click as nat) == start,
                !stop_left ==> word_start(cells, click as nat) == word_start(cells, start as nat),
            decreases start + (if stop_left { 0int } else { 1int }),
        {
            let prev = self.grid.cell(row, start - 1);
            if prev.width != 0 && is_word_boundary(&prev.grapheme) {
                stop_left = true;
            } else {
                start = start - 1;
            }
        }
        let mut end = click;
        let mut stop_right = false;
        while end < cols - 1 && !stop_right
            invariant
                self.wf(),
                row < self.grid@.rows,
                cols == self.grid@.cols,
                cells == self.grid@.screen[row as int],
                click <= end < cols,
                stop_right ==> word_end(cells, click as nat, (cols - 1) as nat) == end,
                !stop_right ==> word_end(cells, click as nat, (cols - 1) as nat) == word_end(
                    cells,
                    end as nat,
                    (cols - 1) as nat,
                ),
            decreases cols - end + (if stop_right { 0int } else { 1int }),
        {
            let next = self.grid.cell(row, end + 1);
            if next.width != 0 && is_word_boundary(&next.grapheme) {
                stop_right = true;
            } else {
                end = end + 1;
            }
        }
        self.selection = Some(Selection { anchor_row: row, anchor_col: start, end_row: row, end_col: end });
        self.copy_selection();
    }

    /// Triple click: selects the whole screen row and copies it.
    pub fn select_line(&mut self, row: usize)
        requires
            old(self).wf(),
            old(self).scroll_offset <= old(self).grid@.scrollback.len(),
            old(self).scroll_offset == 0 ==> row < old(self).grid@.rows,
        ensures
            final(self).wf(),
            selection_copied(
                Terminal {
                    selection: Some(
                        Selection {
                            anchor_row: row,
                            anchor_col: 0,
                            end_row: row,
                            end_col: (old(self).grid@.cols - 1) as usize,
                        },
                    ),
                    ..*old(self)
                },
                *final(self),
            ),
    {
        let cols = self.grid.cols();
        self.selection = Some(Selection { anchor_row: row, anchor_col: 0, end_row: row, end_col: cols - 1 });
        self.copy_selection();
    }

    /// Copies a URL to the clipboard.
    pub fn copy_url_to_clipboard(&mut self, url: &str)
        ensures
            final(self).clipboard@ == url@,
            *final(self) == (Terminal {
                clipboard: final(self).clipboard,
                clipboard_changed: true,
                ..*old(self)
            }),
    {
        self.set_clipboard(url);
    }
}

// ============================================================================
// Search navigation
// ============================================================================
impl Terminal {
    /// Starts a search with an empty query.
    pub fn start_search(&mut self)
        ensures
            final(self).search matches Some(s) && s.query_seq().len() == 0 && s.match_list().len() == 0
                && s.current() == 0 && s.index_is_built(),
            *final(self) == (Terminal { search: final(self).search, ..*old(self) }),
    {
        self.search = Some(SearchState::new());
    }

    /// Ends the search.
    pub fn end_search(&mut self)
        ensures
            *final(self) == (Terminal { search: None, ..*old(self) }),
    {
        self.search = None;
    }

    /// The index of the current match, if searching.
    pub fn current_search_match(&self) -> (r: Option<usize>)
        ensures
            r == (match self.search {
                Some(s) => Some(s.current()),
                None => None::<usize>,
            }),
    {
        match &self.search {
            Some(s) => Some(s.current_match()),
            None => None,
        }
    }

    /// Scrolls so that the current match is shown: into the scrollback for
    /// a match there, back to the live screen for a match on the screen.
    pub fn scroll_to_current_match(&mut self)
        requires
            old(self).wf(),
            old(self).search matches Some(s) ==> s.current() < s.match_list().len() || s.match_list().len() == 0,
        ensures
            final(self).wf(),
            ({
                let sb = old(self).grid@.scrollback.len();
                match old(self).search {
                    Some(s) if s.match_list().len() > 0 => {
                        let r = s.match_list()[s.current() as int].0;
                        if r < sb {
                            final(self).scroll_offset == sb - r && final(self).grid@ == mark_rows_all(old(self).grid@)
                                && *final(self) == (Terminal {
                                scroll_offset: final(self).scroll_offset,
                                grid: final(self).grid,
                                ..*old(self)
                            })
                        } else if r - sb < old(self).grid@.rows && old(self).scroll_offset != 0 {
                            final(self).scroll_offset == 0 && final(self).grid@ == mark_rows_all(old(self).grid@)
                                && *final(self) == (Terminal {
                                scroll_offset: final(self).scroll_offset,
                                grid: final(self).grid,
                                ..*old(self)
                            })
                        } else {
                            *final(self) == *old(self)
                        }
                    },
                    _ => *final(self) == *old(self),
                }
            }),
    {
        let row = match &self.search {
            Some(s) => {
                if s.match_count() == 0 {
                    return;
                }
                s.match_at(s.current_match()).0
            },
            None => {
                return;
            },
        };
        let sb = self.grid.scrollback_len();
        let rows = self.grid.rows();
        if row < sb {
            self.scroll_offset = sb - row;
            self.grid.mark_all_dirty();
        } else if row - sb < rows {
            if self.scroll_offset != 0 {
                self.scroll_offset = 0;
                self.grid.mark_all_dirty();
            }
        }
    }

    /// The matches on display row `display_row`, as (start, end, match
    /// index), from the search's row index.
    pub fn get_search_matches_for_display_row(&self, display_row: usize) -> (r: &[(usize, usize, usize)])
        requires
            self.scroll_offset <= self.grid@.scrollback.len(),
            self.grid@.scrollback.len() + display_row <= usize::MAX,
        ensures
            match self.search {
                None => r@.len() == 0,
                Some(s) => r@ == s.indexed_row(
                    abs_display_row(self.grid@, self.scroll_offset as nat, display_row as nat) as usize,
                ),
            },
    {
        match &self.search {
            None => &[],
            Some(s) => {
                let sb = self.grid.scrollback_len();
                let rows = self.grid.rows();
                let abs = if self.scroll_offset == 0 {
                    sb + display_row
                } else {
                    let shown = if self.scroll_offset < rows {
                        self.scroll_offset
                    } else {
                        rows
                    };
                    if display_row < shown {
                        sb - self.scroll_offset + display_row
                    } else {
                        sb + display_row - shown
                    }
                };
                s.row_entries_of(abs)
            },
        }
    }
}

/// The absolute line number (scrollback first) of a display row.
pub open spec fn abs_display_row(g: GridModel, off: nat, row: nat) -> nat {
    let sb = g.scrollback.len();
    if off == 0 {
        sb + row
    } else {
        let shown = if off < g.rows {
            off
        } else {
            g.rows
        };
        if row < shown {
            (sb - off + row) as nat
        } else {
            (sb + row - shown) as nat
        }
    }
}

// ============================================================================
// Copy mode
// ============================================================================
/// What copy mode works on: the scroll offset, the grid, the copy-mode
/// cursor and the selection.
pub ghost struct CopyView {
    pub off: nat,
    pub grid: GridModel,
    pub cm: Option<CopyModeState>,
    pub selection: Option<Selection>,
}

pub open spec fn copy_view(t: Terminal) -> CopyView {
    CopyView { off: t.scroll_offset as nat, grid: t.grid@, cm: t.copy_mode, selection: t.selection }
}

/// Only the scroll offset, the grid, the copy-mode cursor and the
/// selection differ from `old`.
pub open spec fn only_copy_view_changed(old: Terminal, new: Terminal) -> bool {
    new == (Terminal {
        scroll_offset: new.scroll_offset,
        grid: new.grid,
        copy_mode: new.copy_mode,
        selection: new.selection,
        ..old
    })
}

/// The selection follows the copy-mode cursor while selecting.
pub open spec fn follow(cm: CopyModeState, sel: Option<Selection>) -> Option<Selection> {
    if cm.selecting {
        cm.spec_selection()
    } else {
        sel
    }
}

/// `max(v + d, 0)`, capped at `hi`.
pub open spec fn clamp_move(v: usize, d: isize, hi: int) -> usize {
    let n = if v + d < 0 {
        0
    } else {
        v + d
    };
    (if n < hi {
        n
    } else {
        hi
    }) as usize
}

/// One copy-mode move by (`dr`, `dc`): moving up from the top row scrolls
/// back one line (while there is scrollback), moving down from the bottom
/// row scrolls forward one line (while scrolled back); otherwise the
/// cursor moves, kept on the screen.
pub open spec fn copy_moved(v: CopyView, dr: isize, dc: isize) -> CopyView {
    match v.cm {
        None => v,
        Some(cm) => {
            let rows = v.grid.rows;
            let cols = v.grid.cols;
            let up = dr < 0 && cm.cursor_row == 0 && v.off < v.grid.scrollback.len();
            let down = !up && dr > 0 && cm.cursor_row >= rows - 1 && v.off > 0;
            let off = if up {
                v.off + 1
            } else if down {
                (v.off - 1) as nat
            } else {
                v.off
            };
            let grid = if up || down {
                mark_rows_all(v.grid)
            } else {
                v.grid
            };
            let row = if up || down {
                cm.cursor_row
            } else {
                clamp_move(cm.cursor_row, dr, rows - 1)
            };
            let cm2 = CopyModeState {
                cursor_row: row,
                cursor_col: clamp_move(cm.cursor_col, dc, cols - 1),
                ..cm
            };
            CopyView { off, grid, cm: Some(cm2), selection: follow(cm2, v.selection) }
        },
    }
}

/// `n` moves by (`dr`, 0).
pub open spec fn copy_moved_n(v: CopyView, dr: isize, n: nat) -> CopyView
    decreases n,
{
    if n == 0 {
        v
    } else {
        copy_moved(copy_moved_n(v, dr, (n - 1) as nat), dr, 0)
    }
}

/// The copy-mode cursor can move by (`dr`, `dc`) without leaving the
/// signed range.
pub open spec fn move_in_range(t: Terminal, dr: isize, dc: isize) -> bool {
    t.copy_mode matches Some(cm) ==> {
        &&& cm.cursor_row <= isize::MAX && cm.cursor_col <= isize::MAX
        &&& isize::MIN <= cm.cursor_row + dr <= isize::MAX
        &&& isize::MIN <= cm.cursor_col + dc <= isize::MAX
    }
}

/// The copy-mode cursor row can be read in signed arithmetic.
pub open spec fn copy_row_small(t: Terminal) -> bool {
    t.copy_mode matches Some(cm) ==> cm.cursor_row < isize::MAX && cm.cursor_col < isize::MAX
}

/// `max(v + d, 0)`, capped at `hi`.
fn clamp_exec(v: usize, d: isize, hi: usize) -> (r: usize)
    requires
        v <= isize::MAX,
        isize::MIN <= v + d <= isize::MAX,
    ensures
        r == clamp_move(v, d, hi as int),
{
    let sum = v as isize + d;
    let n: usize = if sum < 0 {
        0
    } else {
        sum as usize
    };
    if n < hi {
        n
    } else {
        hi
    }
}

impl Terminal {
    /// Starts copy mode at the text cursor.
    pub fn enter_copy_mode(&mut self)
        requires
            old(self).wf(),
        ensures
            final(self).wf(),
            final(self).copy_mode == Some(
                CopyModeState {
                    cursor_row: old(self).grid@.cursor_row as usize,
                    cursor_col: old(self).grid@.cursor_col as usize,
                    selecting: false,
                    anchor_row: 0,
                    anchor_col: 0,
                },
            ),
            *final(self) == (Terminal { copy_mode: final(self).copy_mode, ..*old(self) }),
    {
        let r = self.grid.cursor_row();
        let c = self.grid.cursor_col();
        self.copy_mode = Some(CopyModeState::new(r, c));
    }

    /// Leaves copy mode and clears the selection.
    pub fn exit_copy_mode(&mut self)
        ensures
            *final(self) == (Terminal { copy_mode: None, selection: None, ..*old(self) }),
    {
        self.copy_mode = None;
        self.selection = None;
    }

    /// Moves the copy-mode cursor by (`delta_row`, `delta_col`), scrolling
    /// at the top and bottom rows (see [`copy_moved`]).
    #[verifier::spinoff_prover]
    pub fn copy_mode_move(&mut self, delta_row: isize, delta_col: isize)
        requires
            old(self).wf(),
            move_in_range(*old(self), delta_row, delta_col),
        ensures
            final(self).wf(),
            copy_view(*final(self)) == copy_moved(copy_view(*old(self)), delta_row, delta_col),
            only_copy_view_changed(*old(self), *final(self)),
    {
        let cm = match self.copy_mode {
            Some(cm) => cm,
            None => {
                return;
            },
        };
        let rows = self.grid.rows();
        let cols = self.grid.cols();
        let max_scroll = self.grid.scrollback_len();
        let up = delta_row < 0 && cm.cursor_row == 0 && self.scroll_offset < max_scroll;
        let down = !up && delta_row > 0 && cm.cursor_row >= rows - 1 && self.scroll_offset > 0;
        if up {
            self.scroll_offset = self.scroll_offset + 1;
            self.grid.mark_all_dirty();
        } else if down {
            self.scroll_offset = self.scroll_offset - 1;
            self.grid.mark_all_dirty();
        }
        let row = if up || down {
            cm.cursor_row
        } else {
            clamp_exec(cm.cursor_row, delta_row, rows - 1)
        };
        let cm2 = CopyModeState {
            cursor_row: row,
            cursor_col: clamp_exec(cm.cursor_col, delta_col, cols - 1),
            ..cm
        };
        if cm2.selecting {
            self.selection = cm2.get_selection();
        }
        self.copy_mode = Some(cm2);
    }

    /// Moves half a screen up, a line at a time.
    pub fn copy_mode_page_up(&mut self)
        requires
            old(self).wf(),
            copy_row_small(*old(self)),
        ensures
            final(self).wf(),
            copy_view(*final(self)) == copy_moved_n(copy_view(*old(self)), -1isize, old(self).grid@.rows / 2),
            only_copy_view_changed(*old(self), *final(self)),
    {
        let half = self.grid.rows() / 2;
        let ghost start = *self;
        let mut i: usize = 0;
        while i < half
            invariant
                self.wf(),
                0 <= i <= half,
                half == start.grid@.rows / 2,
                self.grid@.rows == start.grid@.rows,
                self.grid@.cols == start.grid@.cols,
                copy_row_small(*self),
                copy_view(*self) == copy_moved_n(copy_view(start), -1isize, i as nat),
                only_copy_view_changed(start, *self),
            decreases half - i,
        {
            self.copy_mode_move(-1, 0);
            i = i + 1;
        }
    }

    /// Moves half a screen down, a line at a time.
    pub fn copy_mode_page_down(&mut self)
        requires
            old(self).wf(),
            copy_row_small(*old(self)),
            old(self).grid@.rows < isize::MAX,
        ensures
            final(self).wf(),
            copy_view(*final(self)) == copy_moved_n(copy_view(*old(self)), 1isize, old(self).grid@.rows / 2),
            only_copy_view_changed(*old(self), *final(self)),
    {
        let half = self.grid.rows() / 2;
        let ghost start = *self;
        let mut i: usize = 0;
        while i < half
            invariant
                self.wf(),
                0 <= i <= half,
                half == start.grid@.rows / 2,
                self.grid@.rows == start.grid@.rows,
                self.grid@.cols == start.grid@.cols,
                start.grid@.rows < isize::MAX,
                copy_row_small(*self),
                copy_view(*self) == copy_moved_n(copy_view(start), 1isize, i as nat),
                only_copy_view_changed(start, *self),
            decreases half - i,
        {
            self.copy_mode_move(1, 0);
            i = i + 1;
        }
    }

    /// Goes to the top of the scrollback.
    pub fn copy_mode_goto_top(&mut self)
        requires
            old(self).wf(),
        ensures
            final(self).wf(),
            only_copy_view_changed(*old(self), *final(self)),
            match old(self).copy_mode {
                None => *final(self) == *old(self),
                Some(cm) => {
                    let sb = old(self).grid@.scrollback.len();
                    let cm2 = CopyModeState { cursor_row: 0, cursor_col: 0, ..cm };
                    &&& final(self).scroll_offset == sb
                    &&& final(self).grid@ == (if old(self).scroll_offset != sb {
                        mark_rows_all(old(self).grid@)
                    } else {
                        old(self).grid@
                    })
                    &&& final(self).copy_mode == Some(cm2)
                    &&& final(self).selection == follow(cm2, old(self).selection)
                },
            },
    {
        let mut cm = match self.copy_mode {
            Some(cm) => cm,
            None => {
                return;
            },
        };
        let top = self.grid.scrollback_len();
        if self.scroll_offset != top {
            self.scroll_offset = top;
            self.grid.mark_all_dirty();
        }
        cm.cursor_row = 0;
        cm.cursor_col = 0;
        if cm.selecting {
            self.selection = cm.get_selection();
        }
        self.copy_mode = Some(cm);
    }

    /// Goes to the bottom row of the live screen.
    pub fn copy_mode_goto_bottom(&mut self)
        requires
            old(self).wf(),
        ensures
            final(self).wf(),
            only_copy_view_changed(*old(self), *final(self)),
            match old(self).copy_mode {
                None => *final(self) == *old(self),
                Some(cm) => {
                    let cm2 = CopyModeState {
                        cursor_row: (old(self).grid@.rows - 1) as usize,
                        cursor_col: 0,
                        ..cm
                    };
                    &&& final(self).scroll_offset == 0
                    &&& final(self).grid@ == (if old(self).scroll_offset != 0 {
                        mark_rows_all(old(self).grid@)
                    } else {
                        old(self).grid@
                    })
                    &&& final(self).copy_mode == Some(cm2)
                    &&& final(self).selection == follow(cm2, old(self).selection)
                },
            },
    {
        let mut cm = match self.copy_mode {
            Some(cm) => cm,
            None => {
                return;
            },
        };
        if self.scroll_offset != 0 {
            self.scroll_offset = 0;
            self.grid.mark_all_dirty();
        }
        cm.cursor_row = self.grid.rows() - 1;
        cm.cursor_col = 0;
        if cm.selecting {
            self.selection = cm.get_selection();
        }
        self.copy_mode = Some(cm);
    }

    /// Starts or ends selecting at the copy-mode cursor.
    pub fn copy_mode_toggle_selection(&mut self)
        requires
            old(self).wf(),
        ensures
            final(self).wf(),
            only_copy_view_changed(*old(self), *final(self)),
            final(self).grid == old(self).grid,
            final(self).scroll_offset == old(self).scroll_offset,
            match old(self).copy_mode {
                None => *final(self) == *old(self),
                Some(cm) => final(self).copy_mode matches Some(c2) && c2.selecting == !cm.selecting
                    && c2.cursor_row == cm.cursor_row && c2.cursor_col == cm.cursor_col && (cm.selecting
                    ==> c2.anchor_row == cm.anchor_row && c2.anchor_col == cm.anchor_col) && (!cm.selecting
                    ==> c2.anchor_row == cm.cursor_row && c2.anchor_col == cm.cursor_col)
                    && final(self).selection == (if c2.selecting {
                    c2.spec_selection()
                } else {
                    None
                }),
            },
    {
        let mut cm = match self.copy_mode {
            Some(cm) => cm,
            None => {
                return;
            },
        };
        cm.toggle_selection();
        if cm.selecting {
            self.selection = cm.get_selection();
        } else {
            self.selection = None;
        }
        self.copy_mode = Some(cm);
    }

    /// Goes to the first column.
    pub fn copy_mode_goto_line_start(&mut self)
        requires
            old(self).wf(),
        ensures
            final(self).wf(),
            only_copy_view_changed(*old(self), *final(self)),
            final(self).grid == old(self).grid,
            final(self).scroll_offset == old(self).scroll_offset,
            match old(self).copy_mode {
                None => *final(self) == *old(self),
                Some(cm) => final(self).copy_mode == Some(CopyModeState { cursor_col: 0, ..cm })
                    && final(self).selection == follow(
                    CopyModeState { cursor_col: 0, ..cm },
                    old(self).selection,
                ),
            },
    {
        let mut cm = match self.copy_mode {
            Some(cm) => cm,
            None => {
                return;
            },
        };
        cm.cursor_col = 0;
        if cm.selecting {
            self.selection = cm.get_selection();
        }
        self.copy_mode = Some(cm);
    }

    /// Goes to the last column.
    pub fn copy_mode_goto_line_end(&mut self)
        requires
            old(self).wf(),
        ensures
            final(self).wf(),
            only_copy_view_changed(*old(self), *final(self)),
            final(self).grid == old(self).grid,
            final(self).scroll_offset == old(self).scroll_offset,
            match old(self).copy_mode {
                None => *final(self) == *old(self),
                Some(cm) => {
                    let cm2 = CopyModeState { cursor_col: (old(self).grid@.cols - 1) as usize, ..cm };
                    final(self).copy_mode == Some(cm2) && final(self).selection == follow(
                        cm2,
                        old(self).selection,
                    )
                },
            },
    {
        let mut cm = match self.copy_mode {
            Some(cm) => cm,
            None => {
                return;
            },
        };
        cm.cursor_col = self.grid.cols() - 1;
        if cm.selecting {
            self.selection = cm.get_selection();
        }
        self.copy_mode = Some(cm);
    }

    /// Copies the selection and leaves copy mode.
    pub fn copy_mode_yank(&mut self)
        requires
            old(self).wf(),
            selection_readable(*old(self)),
        ensures
            exists|mid: Terminal|
                selection_copied(*old(self), mid) && *final(self) == (Terminal {
                    copy_mode: None,
                    selection: None,
                    ..mid
                }),
    {
        self.copy_selection();
        let ghost mid = *self;
        self.exit_copy_mode();
        proof {
            assert(*self == (Terminal { copy_mode: None, selection: None, ..mid }));
        }
    }
}

/// A cell counts as blank for word motion: empty, or starting with
/// whitespace.
pub open spec fn blank_cell(c: CellModel) -> bool {
    c.grapheme.len() == 0 || is_white(c.grapheme[0])
}

/// Moving right from `col` on display row `row` while cells are `blank`
/// (or while they are not), stopping at `last`.
pub open spec fn skip_right(g: GridModel, off: nat, row: nat, col: nat, last: nat, blank: bool) -> nat
    decreases last - col,
{
    if col >= last || blank_cell(shown_cell(g, off, row, col)) != blank {
        col
    } else {
        skip_right(g, off, row, col + 1, last, blank)
    }
}

/// Moving left from `col` while the cells left of it are `blank` (or are
/// not), stopping at column 0.
pub open spec fn skip_left(g: GridModel, off: nat, row: nat, col: nat, blank: bool) -> nat
    decreases col,
{
    if col == 0 || blank_cell(shown_cell(g, off, row, (col - 1) as nat)) != blank {
        col
    } else {
        skip_left(g, off, row, (col - 1) as nat, blank)
    }
}

/// The copy-mode cursor lies where cells can be read.
pub open spec fn copy_cursor_readable(t: Terminal) -> bool {
    t.copy_mode matches Some(cm) ==> {
        &&& cm.cursor_col <= t.grid@.cols
        &&& t.scroll_offset <= t.grid@.scrollback.len()
        &&& t.scroll_offset == 0 ==> cm.cursor_row < t.grid@.rows
    }
}

impl Terminal {
    /// Whether the cell shown at (`row`, `col`) is blank for word motion.
    fn blank_at(&self, row: usize, col: usize) -> (r: bool)
        requires
            self.wf(),
            shown_defined(self.grid@, self.scroll_offset as nat, row as nat, col as nat),
        ensures
            r == blank_cell(shown_cell(self.grid@, self.scroll_offset as nat, row as nat, col as nat)),
    {
        let cell = self.display_cell(row, col);
        cell.grapheme.len() == 0 || is_whitespace(cell.grapheme[0])
    }

    /// Copy mode: to the start of the next word (past the rest of this word,
    /// then past blanks), not past the last column.
    pub fn copy_mode_word_forward(&mut self)
        requires
            old(self).wf(),
            copy_cursor_readable(*old(self)),
        ensures
            final(self).wf(),
            match old(self).copy_mode {
                None => *final(self) == *old(self),
                Some(cm) => {
                    let g = old(self).grid@;
                    let off = old(self).scroll_offset as nat;
                    let last = (g.cols - 1) as nat;
                    let c1 = skip_right(g, off, cm.cursor_row as nat, cm.cursor_col as nat, last, false);
                    let c2 = skip_right(g, off, cm.cursor_row as nat, c1, last, true);
                    let cm2 = CopyModeState { cursor_col: c2 as usize, ..cm };
                    *final(self) == (Terminal {
                        copy_mode: Some(cm2),
                        selection: follow(cm2, old(self).selection),
                        ..*old(self)
                    })
                },
            },
    {
        let cm = match self.copy_mode {
            Some(cm) => cm,
            None => {
                return;
            },
        };
        let row = cm.cursor_row;
        let last = self.grid.cols() - 1;
        let ghost g = self.grid@;
        let ghost off = self.scroll_offset as nat;
        let mut col = cm.cursor_col;
        while col < last && !self.blank_at(row, col)
            invariant
                self.wf(),
                copy_cursor_readable(*self),
                self.copy_mode == Some(cm),
                row == cm.cursor_row,
                last == self.grid@.cols - 1,
                g == self.grid@,
                off == self.scroll_offset,
                cm.cursor_col <= col <= self.grid@.cols,
                skip_right(g, off, row as nat, cm.cursor_col as nat, last as nat, false) == skip_right(
                    g,
                    off,
                    row as nat,
                    col as nat,
                    last as nat,
                    false,
                ),
            decreases self.grid@.cols - col,
        {
            col = col + 1;
        }
        let ghost c1 = col;
        while col < last && self.blank_at(row, col)
            invariant
                self.wf(),
                copy_cursor_readable(*self),
                self.copy_mode == Some(cm),
                row == cm.cursor_row,
                last == self.grid@.cols - 1,
                g == self.grid@,
                off == self.scroll_offset,
                c1 <= col <= self.grid@.cols,
                skip_right(g, off, row as nat, c1 as nat, last as nat, true) == skip_right(
                    g,
                    off,
                    row as nat,
                    col as nat,
                    last as nat,
                    true,
                ),
            decreases self.grid@.cols - col,
        {
            col = col + 1;
        }
        let cm2 = CopyModeState { cursor_col: col, ..cm };
        if cm2.selecting {
            self.selection = cm2.get_selection();
        }
        self.copy_mode = Some(cm2);
    }

    /// Copy mode: to the start of the previous word (left past blanks,
    /// then past the word).
    pub fn copy_mode_word_backward(&mut self)
        requires
            old(self).wf(),
            copy_cursor_readable(*old(self)),
        ensures
            final(self).wf(),
            match old(self).copy_mode {
                None => *final(self) == *old(self),
                Some(cm) => {
                    let g = old(self).grid@;
                    let off = old(self).scroll_offset as nat;
                    let c1 = skip_left(g, off, cm.cursor_row as nat, cm.cursor_col as nat, true);
                    let c2 = skip_left(g, off, cm.cursor_row as nat, c1, false);
                    let cm2 = CopyModeState { cursor_col: c2 as usize, ..cm };
                    *final(self) == (Terminal {
                        copy_mode: Some(cm2),
                        selection: follow(cm2, old(self).selection),
                        ..*old(self)
                    })
                },
            },
    {
        let cm = match self.copy_mode {
            Some(cm) => cm,
            None => {
                return;
            },
        };
        let row = cm.cursor_row;
        let ghost g = self.grid@;
        let ghost off = self.scroll_offset as nat;
        let mut col = cm.cursor_col;
        while col > 0 && self.blank_at(row, col - 1)
            invariant
                self.wf(),
                copy_cursor_readable(*self),
                self.copy_mode == Some(cm),
                row == cm.cursor_row,
                g == self.grid@,
                off == self.scroll_offset,
                col <= cm.cursor_col <= self.grid@.cols,
                skip_left(g, off, row as nat, cm.cursor_col as nat, true) == skip_left(
                    g,
                    off,
                    row as nat,
                    col as nat,
                    true,
                ),
            decreases col,
        {
            col = col - 1;
        }
        let ghost c1 = col;
        while col > 0 && !self.blank_at(row, col - 1)
            invariant
                self.wf(),
                copy_cursor_readable(*self),
                self.copy_mode == Some(cm),
                row == cm.cursor_row,
                g == self.grid@,
                off == self.scroll_offset,
                col <= c1 <= self.grid@.cols,
                skip_left(g, off, row as nat, c1 as nat, false) == skip_left(g, off, row as nat, col as nat, false),
            decreases col,
        {
            col = col - 1;
        }
        let cm2 = CopyModeState { cursor_col: col, ..cm };
        if cm2.selecting {
            self.selection = cm2.get_selection();
        }
        self.copy_mode = Some(cm2);
    }
}

} // verus!
