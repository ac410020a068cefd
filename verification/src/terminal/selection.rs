//! Text selection, copy-mode cursor and search state.
//!
//! Positions are display coordinates (row, column). A selection is kept as
//! the anchor where it started and the end where it currently reaches; both
//! columns are inclusive cells, and [`Selection::normalized`] orders them.

use std::collections::HashMap;
use vstd::prelude::*;
use vstd::string::StrSliceExecFns;

verus! {

broadcast use vstd::std_specs::hash::group_hash_axioms;

/// Text selection range (display coordinates)
pub struct Selection {
    /// Selection start point (anchor)
    pub anchor_row: usize,
    pub anchor_col: usize,
    /// Selection end point (current position)
    pub end_row: usize,
    pub end_col: usize,
}

/// `(r1, c1)` comes no later than `(r2, c2)` in reading order.
pub open spec fn pos_le(r1: int, c1: int, r2: int, c2: int) -> bool {
    r1 < r2 || (r1 == r2 && c1 <= c2)
}

impl Selection {
    /// Both end columns leave room for the exclusive bound one past them.
    pub open spec fn wf(&self) -> bool {
        self.anchor_col < usize::MAX && self.end_col < usize::MAX
    }

    /// The selection ordered in reading order: start row and column
    /// (inclusive), end row, and end column (exclusive).
    pub open spec fn spec_normalized(&self) -> (usize, usize, usize, usize) {
        if pos_le(
            self.anchor_row as int,
            self.anchor_col as int,
            self.end_row as int,
            self.end_col as int,
        ) {
            (self.anchor_row, self.anchor_col, self.end_row, (self.end_col + 1) as usize)
        } else {
            (self.end_row, self.end_col, self.anchor_row, (self.anchor_col + 1) as usize)
        }
    }

    /// The selected columns `[start, end)` of `row`, clipped to `max_cols`.
    pub open spec fn spec_cols_for_row(&self, row: usize, max_cols: usize) -> Option<(usize, usize)> {
        let (sr, sc, er, ec) = self.spec_normalized();
        if row < sr || row > er {
            None
        } else {
            let start: usize = if row == sr { sc } else { 0 };
            let end: usize = if row == er { if ec < max_cols { ec } else { max_cols } } else { max_cols };
            if start >= end { None } else { Some((start, end)) }
        }
    }

    /// Whether cell `(row, col)` lies inside the selection.
    pub open spec fn spec_contains(&self, row: usize, col: usize) -> bool {
        let (sr, sc, er, ec) = self.spec_normalized();
        if row < sr || row > er {
            false
        } else if row == sr && row == er {
            sc <= col < ec
        } else if row == sr {
            col >= sc
        } else if row == er {
            col < ec
        } else {
            true
        }
    }

    /// Return normalized range (guarantees start <= end)
    /// Both anchor_col and end_col are stored as inclusive cell positions.
    /// This method returns (sr, sc, er, ec) where sc is inclusive and ec is EXCLUSIVE.
    pub fn normalized(&self) -> (r: (usize, usize, usize, usize))
        requires
            self.wf(),
        ensures
            r == self.spec_normalized(),
            pos_le(r.0 as int, r.1 as int, r.2 as int, r.3 as int - 1),
    {
        if self.anchor_row < self.end_row || (self.anchor_row == self.end_row && self.anchor_col
            <= self.end_col) {
            (self.anchor_row, self.anchor_col, self.end_row, self.end_col + 1)
        } else {
            (self.end_row, self.end_col, self.anchor_row, self.anchor_col + 1)
        }
    }

    /// Get column range for a specific row (returns None if row not in selection)
    /// Returns (start_col, end_col) where end_col is exclusive.
    pub fn cols_for_row(&self, row: usize, max_cols: usize) -> (r: Option<(usize, usize)>)
        requires
            self.wf(),
        ensures
            r == self.spec_cols_for_row(row, max_cols),
    {
        let (sr, sc, er, ec) = self.normalized();
        if row < sr || row > er {
            return None;
        }
        let start = if row == sr {
            sc
        } else {
            0
        };
        let end = if row == er {
            if ec < max_cols {
                ec
            } else {
                max_cols
            }
        } else {
            max_cols
        };
        if start >= end {
            return None;
        }
        Some((start, end))
    }

    /// Check if specified cell is within selection range
    pub fn contains(&self, row: usize, col: usize) -> (r: bool)
        requires
            self.wf(),
        ensures
            r == self.spec_contains(row, col),
    {
        let (sr, sc, er, ec) = self.normalized();
        if row < sr || row > er {
            return false;
        }
        if row == sr && row == er {
            return col >= sc && col < ec;
        }
        if row == sr {
            return col >= sc;
        }
        if row == er {
            return col < ec;
        }
        true
    }
}

/// Within the first `max_cols` columns, a cell is inside the selection
/// exactly when it falls in the column range that
/// [`Selection::cols_for_row`] gives for its row.
pub proof fn lemma_contains_agrees_with_cols_for_row(
    sel: Selection,
    row: usize,
    col: usize,
    max_cols: usize,
)
    requires
        sel.wf(),
        col < max_cols,
    ensures
        sel.spec_contains(row, col) <==> (match sel.spec_cols_for_row(row, max_cols) {
            Some((s, e)) => s <= col < e,
            None => false,
        }),
{
}

/// The anchor and the end of a selection are both inside it, whichever
/// comes first.
pub proof fn lemma_selection_contains_endpoints(sel: Selection)
    requires
        sel.wf(),
    ensures
        sel.spec_contains(sel.anchor_row, sel.anchor_col),
        sel.spec_contains(sel.end_row, sel.end_col),
{
}

/// Swapping anchor and end selects the same cells.
pub proof fn lemma_selection_symmetric(sel: Selection, row: usize, col: usize)
    requires
        sel.wf(),
    ensures
        sel.spec_contains(row, col) == (Selection {
            anchor_row: sel.end_row,
            anchor_col: sel.end_col,
            end_row: sel.anchor_row,
            end_col: sel.anchor_col,
        }).spec_contains(row, col),
{
}

/// Copy mode state
#[derive(Debug, Clone, Copy, PartialEq, Eq, Structural)]
pub struct CopyModeState {
    /// Copy mode cursor row (display coordinates)
    pub cursor_row: usize,
    /// Copy mode cursor column
    pub cursor_col: usize,
    /// Selection active flag
    pub selecting: bool,
    /// Selection start position (when selecting=true)
    pub anchor_row: usize,
    pub anchor_col: usize,
}

impl CopyModeState {
    pub fn new(cursor_row: usize, cursor_col: usize) -> (r: Self)
        ensures
            r.cursor_row == cursor_row,
            r.cursor_col == cursor_col,
            !r.selecting,
            r.anchor_row == 0,
            r.anchor_col == 0,
    {
        CopyModeState { cursor_row, cursor_col, selecting: false, anchor_row: 0, anchor_col: 0 }
    }

    /// Start/toggle selection: starting anchors the selection at the cursor.
    pub fn toggle_selection(&mut self)
        ensures
            final(self).selecting == !old(self).selecting,
            final(self).cursor_row == old(self).cursor_row,
            final(self).cursor_col == old(self).cursor_col,
            old(self).selecting ==> final(self).anchor_row == old(self).anchor_row
                && final(self).anchor_col == old(self).anchor_col,
            !old(self).selecting ==> final(self).anchor_row == old(self).cursor_row
                && final(self).anchor_col == old(self).cursor_col,
    {
        if self.selecting {
            self.selecting = false;
        } else {
            self.selecting = true;
            self.anchor_row = self.cursor_row;
            self.anchor_col = self.cursor_col;
        }
    }

    /// The selection from the anchor to the cursor, while selecting.
    pub open spec fn spec_selection(&self) -> Option<Selection> {
        if self.selecting {
            Some(
                Selection {
                    anchor_row: self.anchor_row,
                    anchor_col: self.anchor_col,
                    end_row: self.cursor_row,
                    end_col: self.cursor_col,
                },
            )
        } else {
            None
        }
    }

    /// Return current selection range as Selection
    pub fn get_selection(&self) -> (r: Option<Selection>)
        ensures
            r == self.spec_selection(),
    {
        if self.selecting {
            Some(
                Selection {
                    anchor_row: self.anchor_row,
                    anchor_col: self.anchor_col,
                    end_row: self.cursor_row,
                    end_col: self.cursor_col,
                },
            )
        } else {
            None
        }
    }
}

/// Search state
pub struct SearchState {
    /// Search query
    pub query: String,
    /// Match position list: (row, start_col, end_col)
    /// row is absolute row including scrollback (0 = start of scrollback)
    pub matches: Vec<(usize, usize, usize)>,
    /// Current match index
    pub current_match: usize,
    /// Matches grouped by row for fast lookup (row -> [(start_col, end_col, match_index)])
    row_matches: HashMap<usize, Vec<(usize, usize, usize)>>,
}

/// The matches among the first `n` of `matches` that lie on `row`, as
/// `(start_col, end_col, match_index)` in match order.
pub open spec fn row_entries(matches: Seq<(usize, usize, usize)>, row: usize, n: int) -> Seq<
    (usize, usize, usize),
>
    decreases n,
{
    if n <= 0 {
        Seq::empty()
    } else {
        let prev = row_entries(matches, row, n - 1);
        let m = matches[n - 1];
        if m.0 == row {
            prev.push((m.1, m.2, (n - 1) as usize))
        } else {
            prev
        }
    }
}

/// The match after `cur` among `len` matches, wrapping to the first.
pub open spec fn next_match_index(len: nat, cur: nat) -> nat {
    if len == 0 {
        cur
    } else {
        ((cur + 1) % len) as nat
    }
}

/// The match before `cur` among `len` matches, wrapping to the last.
pub open spec fn prev_match_index(len: nat, cur: nat) -> nat {
    if len == 0 {
        cur
    } else if cur == 0 {
        (len - 1) as nat
    } else {
        (cur - 1) as nat
    }
}

impl SearchState {
    /// The search query.
    pub closed spec fn query_seq(&self) -> Seq<char> {
        self.query@
    }

    /// The matches found, as (row, start column, end column).
    pub closed spec fn match_list(&self) -> Seq<(usize, usize, usize)> {
        self.matches@
    }

    /// Index of the current match.
    pub closed spec fn current(&self) -> usize {
        self.current_match
    }

    /// The row index holds, for every row that has a match, that row's
    /// entries in match order, and no other rows.
    pub closed spec fn index_is_built(&self) -> bool {
        forall|r: usize|
            #![trigger self.row_matches@.contains_key(r)]
            (self.row_matches@.contains_key(r) <==> row_entries(
                self.matches@,
                r,
                self.matches@.len() as int,
            ).len() > 0) && (self.row_matches@.contains_key(r) ==> self.row_matches@[r]@
                == row_entries(self.matches@, r, self.matches@.len() as int))
    }

    /// The entries of the row index for `row` (empty when it has none).
    pub closed spec fn indexed_row(&self, row: usize) -> Seq<(usize, usize, usize)> {
        if self.row_matches@.contains_key(row) {
            self.row_matches@[row]@
        } else {
            Seq::empty()
        }
    }

    pub fn new() -> (r: Self)
        ensures
            r.query_seq() == Seq::<char>::empty(),
            r.match_list() == Seq::<(usize, usize, usize)>::empty(),
            r.current() == 0,
            r.index_is_built(),
    {
        SearchState {
            query: String::new(),
            matches: Vec::new(),
            current_match: 0,
            row_matches: HashMap::new(),
        }
    }

    /// Build the row index from the match list.
    pub fn build_row_index(&mut self)
        ensures
            final(self).query_seq() == old(self).query_seq(),
            final(self).match_list() == old(self).match_list(),
            final(self).current() == old(self).current(),
            final(self).index_is_built(),
            forall|r: usize|
                #[trigger] final(self).indexed_row(r) == row_entries(
                    old(self).match_list(),
                    r,
                    old(self).match_list().len() as int,
                ),
    {
        self.row_matches.clear();
        let n = self.matches.len();
        let mut idx: usize = 0;
        while idx < n
            invariant
                n == self.matches.len(),
                0 <= idx <= n,
                forall|r: usize|
                    #![trigger self.row_matches@.contains_key(r)]
                    (self.row_matches@.contains_key(r) <==> row_entries(
                        self.matches@,
                        r,
                        idx as int,
                    ).len() > 0) && (self.row_matches@.contains_key(r) ==> self.row_matches@[r]@
                        == row_entries(self.matches@, r, idx as int)),
                self.query == old(self).query,
                self.matches == old(self).matches,
                self.current_match == old(self).current_match,
            decreases n - idx,
        {
            let (row, start, end) = self.matches[idx];
            let ghost before = self.row_matches@;
            let mut entries = match self.row_matches.remove(&row) {
                Some(v) => v,
                None => Vec::new(),
            };
            entries.push((start, end, idx));
            self.row_matches.insert(row, entries);
            proof {
                assert forall|r: usize|
                    #![trigger self.row_matches@.contains_key(r)]
                    (self.row_matches@.contains_key(r) <==> row_entries(
                        self.matches@,
                        r,
                        idx + 1,
                    ).len() > 0) && (self.row_matches@.contains_key(r) ==> self.row_matches@[r]@
                        == row_entries(self.matches@, r, idx + 1)) by {
                    if r != row {
                        assert(before.contains_key(r) == self.row_matches@.contains_key(r));
                    }
                }
            }
            idx = idx + 1;
        }
        proof {
            assert forall|r: usize|
                #[trigger] self.indexed_row(r) == row_entries(
                    old(self).match_list(),
                    r,
                    old(self).match_list().len() as int,
                ) by {
                assert(self.row_matches@.contains_key(r) == self.row_matches@.contains_key(r));
            }
        }
    }

    /// The index of the current match.
    pub fn current_match(&self) -> (r: usize)
        ensures
            r == self.current(),
    {
        self.current_match
    }

    /// The number of matches.
    pub fn match_count(&self) -> (r: usize)
        ensures
            r == self.match_list().len(),
    {
        self.matches.len()
    }

    /// Match `i`.
    pub fn match_at(&self, i: usize) -> (r: (usize, usize, usize))
        requires
            i < self.match_list().len(),
        ensures
            r == self.match_list()[i as int],
    {
        self.matches[i]
    }

    /// The characters of the query.
    pub fn query_chars(&self) -> (r: Vec<char>)
        ensures
            r@ == self.query_seq(),
    {
        chars_of(&self.query)
    }

    /// Replaces the matches, makes the first one current and rebuilds the
    /// row index.
    pub fn set_matches(&mut self, matches: Vec<(usize, usize, usize)>)
        ensures
            final(self).query_seq() == old(self).query_seq(),
            final(self).match_list() == matches@,
            final(self).current() == 0,
            final(self).index_is_built(),
            forall|r: usize| #[trigger]
                final(self).indexed_row(r) == row_entries(matches@, r, matches@.len() as int),
    {
        self.matches = matches;
        self.current_match = 0;
        self.build_row_index();
    }

    /// The entries of the row index for `row`.
    pub fn row_entries_of(&self, row: usize) -> (r: &[(usize, usize, usize)])
        ensures
            r@ == self.indexed_row(row),
    {
        match self.row_matches.get(&row) {
            Some(v) => v.as_slice(),
            None => &[],
        }
    }

    /// Move to next match
    pub fn next_match(&mut self)
        requires
            old(self).match_list().len() > 0 ==> old(self).current() < usize::MAX,
        ensures
            final(self).match_list() == old(self).match_list(),
            final(self).query_seq() == old(self).query_seq(),
            final(self).current() == next_match_index(
                old(self).match_list().len(),
                old(self).current() as nat,
            ),
    {
        if self.matches.len() != 0 {
            self.current_match = (self.current_match + 1) % self.matches.len();
        }
    }

    /// Move to previous match
    pub fn prev_match(&mut self)
        ensures
            final(self).match_list() == old(self).match_list(),
            final(self).query_seq() == old(self).query_seq(),
            final(self).current() == prev_match_index(
                old(self).match_list().len(),
                old(self).current() as nat,
            ),
    {
        if self.matches.len() != 0 {
            self.current_match = if self.current_match == 0 {
                self.matches.len() - 1
            } else {
                self.current_match - 1
            };
        }
    }
}

impl SearchState {
    /// The match list is held in memory: its length is a `usize`, so with a
    /// current match that points into it, [`SearchState::next_match`] can
    /// be called.
    pub proof fn lemma_match_count_fits(&self)
        ensures
            self.match_list().len() <= usize::MAX,
            self.current() < self.match_list().len() ==> self.current() < usize::MAX,
    {
        assert(self.matches.len() == self.matches@.len());
    }
}

/// On a search whose current match points into its matches, going to the
/// next match and then the previous one returns to it, and so does going to
/// the previous one and then the next; from the first match, the previous
/// one is the last.
pub proof fn lemma_search_next_prev(s: SearchState)
    requires
        s.current() < s.match_list().len(),
    ensures
        s.current() < usize::MAX,
        prev_match_index(s.match_list().len(), next_match_index(s.match_list().len(), s.current() as nat)) == s.current(),
        next_match_index(s.match_list().len(), prev_match_index(s.match_list().len(), s.current() as nat)) == s.current(),
        s.current() == 0 ==> prev_match_index(s.match_list().len(), 0) == s.match_list().len() - 1,
{
    s.lemma_match_count_fits();
    lemma_next_prev_inverse(s.match_list().len(), s.current() as nat);
}

/// Going to the previous match undoes going to the next one, and going to
/// the next match undoes going to the previous one, while the current index
/// points at a match.
pub proof fn lemma_next_prev_inverse(len: nat, cur: nat)
    requires
        cur < len,
    ensures
        prev_match_index(len, next_match_index(len, cur)) == cur,
        next_match_index(len, prev_match_index(len, cur)) == cur,
{
    if cur + 1 == len {
        vstd::arithmetic::div_mod::lemma_mod_self_0(len as int);
    } else {
        vstd::arithmetic::div_mod::lemma_small_mod((cur + 1) as nat, len);
    }
    if cur == 0 {
        vstd::arithmetic::div_mod::lemma_mod_self_0(len as int);
    } else {
        vstd::arithmetic::div_mod::lemma_small_mod(cur, len);
    }
}

/// The characters of a string.
pub(crate) fn chars_of(s: &String) -> (r: Vec<char>)
    ensures
        r@ == s@,
{
    let st = s.as_str();
    let n = st.unicode_len();
    let mut out: Vec<char> = Vec::new();
    let mut i: usize = 0;
    while i < n
        invariant
            n == st@.len(),
            st@ == s@,
            0 <= i <= n,
            out@ == s@.take(i as int),
        decreases n - i,
    {
        out.push(st.get_char(i));
        i = i + 1;
        proof {
            assert(out@ =~= s@.take(i as int));
        }
    }
    proof {
        assert(s@.take(n as int) =~= s@);
    }
    out
}

} // verus!
