//! Finding the URL under a display position: the cell's OSC 8 hyperlink
//! if it has one, else a `http://`, `https://` or `file://` URL written
//! in the line's text that covers the position.

use vstd::prelude::*;

use crate::terminal::grid::{CellModel, GridModel};
use crate::terminal::term::Terminal;
use crate::terminal::textops::{
    cell_text, line_text, line_text_upto, occurs_at, shown_cell, shown_defined, string_from_chars,
};

verus! {

/// Unicode `Alphabetic` or `Numeric`, as `char::is_alphanumeric` decides.
pub uninterp spec fn alphanumeric(c: char) -> bool;

/// Calls `char::is_alphanumeric`. The contract claims only that the answer
/// depends on the character alone, named by [`alphanumeric`], and that on
/// ASCII it is the letters and digits.
#[verifier::external_body]
fn is_alphanumeric(c: char) -> (r: bool)
    ensures
        r == alphanumeric(c),
        (c as u32) < 128 ==> (r <==> ('0' <= c <= '9' || 'a' <= c <= 'z' || 'A' <= c <= 'Z')),
{
    c.is_alphanumeric()
}

/// The punctuation a URL may hold: `-._~:/?#[]@!$&'()*+,;=%`.
pub open spec fn url_punct(c: char) -> bool {
    c == '-' || c == '.' || c == '_' || c == '~' || c == ':' || c == '/' || c == '?' || c == '#'
        || c == '[' || c == ']' || c == '@' || c == '!' || c == '$' || c == '&' || c == '\''
        || c == '(' || c == ')' || c == '*' || c == '+' || c == ',' || c == ';' || c == '='
        || c == '%'
}

/// A character a URL may hold.
pub open spec fn url_char(c: char) -> bool {
    alphanumeric(c) || url_punct(c)
}

/// The end of the run of URL characters of `t` that starts at `i`.
pub open spec fn url_run(t: Seq<char>, i: int) -> int
    decreases t.len() - i,
{
    if 0 <= i < t.len() && url_char(t[i]) {
        url_run(t, i + 1)
    } else {
        i
    }
}

/// The first position at or after `i` where `p` occurs in `t`.
pub open spec fn first_occurrence(t: Seq<char>, p: Seq<char>, i: int) -> Option<int>
    decreases t.len() - i,
{
    if i < 0 || i + p.len() > t.len() {
        None
    } else if occurs_at(t, p, i) {
        Some(i)
    } else {
        proof {
            assert(p.len() == 0 ==> t.subrange(i, i + p.len()) =~= p);
        }
        first_occurrence(t, p, i + 1)
    }
}

/// The first URL starting with `p`, found from `from` on (each search
/// resumes past the prefix just found), that covers position `k`, as its
/// start and end.
pub open spec fn url_with_prefix(t: Seq<char>, p: Seq<char>, k: int, from: int) -> Option<(int, int)>
    decreases t.len() - from,
{
    if p.len() == 0 {
        None
    } else {
        match first_occurrence(t, p, from) {
            None => None,
            Some(s) => {
                if from <= s && s + p.len() <= t.len() {
                    if s <= k < url_run(t, s) {
                        Some((s, url_run(t, s)))
                    } else {
                        url_with_prefix(t, p, k, s + p.len())
                    }
                } else {
                    None
                }
            },
        }
    }
}

pub open spec fn http_prefix() -> Seq<char> {
    seq!['h', 't', 't', 'p', ':', '/', '/']
}

pub open spec fn https_prefix() -> Seq<char> {
    seq!['h', 't', 't', 'p', 's', ':', '/', '/']
}

pub open spec fn file_prefix() -> Seq<char> {
    seq!['f', 'i', 'l', 'e', ':', '/', '/']
}

/// The URL of `t` covering position `k`: the prefixes `http://`,
/// `https://`, `file://` are tried in that order.
pub open spec fn url_in_text(t: Seq<char>, k: int) -> Option<Seq<char>> {
    let found = match url_with_prefix(t, http_prefix(), k, 0) {
        Some(r) => Some(r),
        None => match url_with_prefix(t, https_prefix(), k, 0) {
            Some(r) => Some(r),
            None => url_with_prefix(t, file_prefix(), k, 0),
        },
    };
    match found {
        Some((s, e)) => Some(t.subrange(s, e)),
        None => None,
    }
}

/// The cells shown on display row `row`.
pub open spec fn shown_line(g: GridModel, off: nat, row: nat) -> Seq<CellModel> {
    Seq::new(g.cols, |c: int| shown_cell(g, off, row, c as nat))
}

/// The URL at a display position: the shown cell's hyperlink, else the URL
/// written in the row's text that covers the cell's first character.
pub open spec fn url_at(g: GridModel, off: nat, row: nat, col: nat) -> Option<Seq<char>> {
    match shown_cell(g, off, row, col).hyperlink {
        Some(l) => Some(l.url),
        None => {
            let cells = shown_line(g, off, row);
            url_in_text(line_text(cells), line_text_upto(cells, col as int).len() as int)
        },
    }
}

/// Whether `c` may stand in a URL.
fn is_url_char(c: char) -> (r: bool)
    ensures
        r == url_char(c),
{
    if is_alphanumeric(c) {
        return true;
    }
    c == '-' || c == '.' || c == '_' || c == '~' || c == ':' || c == '/' || c == '?' || c == '#'
        || c == '[' || c == ']' || c == '@' || c == '!' || c == '$' || c == '&' || c == '\''
        || c == '(' || c == ')' || c == '*' || c == '+' || c == ',' || c == ';' || c == '='
        || c == '%'
}

/// Whether `p` occurs in `t` at `i`.
fn occurs_at_exec(t: &Vec<char>, p: &Vec<char>, i: usize) -> (r: bool)
    ensures
        r == occurs_at(t@, p@, i as int),
{
    if i > t.len() || p.len() > t.len() - i {
        return false;
    }
    let mut k: usize = 0;
    while k < p.len()
        invariant
            i + p@.len() <= t.len(),
            0 <= k <= p@.len(),
            forall|j: int| 0 <= j < k ==> t@[i + j] == p@[j],
        decreases p@.len() - k,
    {
        if t[i + k] != p[k] {
            proof {
                assert(t@.subrange(i as int, i + p@.len())[k as int] != p@[k as int]);
            }
            return false;
        }
        k = k + 1;
    }
    proof {
        assert(t@.subrange(i as int, i + p@.len()) =~= p@);
    }
    true
}

/// The URL starting with `p` that covers `k` (see [`url_with_prefix`]).
fn find_url_with_prefix(t: &Vec<char>, p: &Vec<char>, k: usize) -> (r: Option<(usize, usize)>)
    requires
        p@.len() > 0,
    ensures
        match r {
            Some((s, e)) => s <= e <= t@.len() && url_with_prefix(t@, p@, k as int, 0) == Some(
                (s as int, e as int),
            ),
            None => url_with_prefix(t@, p@, k as int, 0) is None,
        },
{
    let mut from: usize = 0;
    while from <= t.len()
        invariant
            p@.len() > 0,
            from <= t@.len() + 1,
            url_with_prefix(t@, p@, k as int, 0) == url_with_prefix(t@, p@, k as int, from as int),
        decreases t@.len() + 1 - from,
    {
        // The next occurrence of the prefix.
        let mut i: usize = from;
        let mut found = false;
        while i <= t.len() && p.len() <= t.len() - i && !found
            invariant
                p@.len() > 0,
                from <= i,
                from <= t@.len(),
                first_occurrence(t@, p@, from as int) == first_occurrence(t@, p@, i as int),
                found ==> occurs_at(t@, p@, i as int),
            decreases 2 * (t@.len() + 1 - i) + if found {
                0int
            } else {
                1int
            },
        {
            if occurs_at_exec(t, p, i) {
                found = true;
            } else {
                i = i + 1;
            }
        }
        if !found {
            proof {
                assert(first_occurrence(t@, p@, i as int) is None);
            }
            return None;
        }
        proof {
            assert(first_occurrence(t@, p@, i as int) == Some(i as int));
        }
        // The run of URL characters from there.
        let mut e: usize = i;
        while e < t.len() && is_url_char(t[e])
            invariant
                i <= e <= t@.len(),
                url_run(t@, i as int) == url_run(t@, e as int),
            decreases t@.len() - e,
        {
            e = e + 1;
        }
        proof {
            assert(url_run(t@, e as int) == e);
        }
        if i <= k && k < e {
            return Some((i, e));
        }
        from = i + p.len();
    }
    proof {
        assert(first_occurrence(t@, p@, from as int) is None);
    }
    None
}

impl Terminal {
    /// The URL at a display position (see [`url_at`]).
    pub fn detect_url_at(&self, row: usize, col: usize) -> (r: Option<String>)
        requires
            self.wf(),
            shown_defined(self.grid@, self.scroll_offset as nat, row as nat, col as nat),
        ensures
            match r {
                Some(s) => url_at(self.grid@, self.scroll_offset as nat, row as nat, col as nat)
                    == Some(s@),
                None => url_at(self.grid@, self.scroll_offset as nat, row as nat, col as nat)
                    is None,
            },
    {
        let ghost g = self.grid@;
        let ghost off = self.scroll_offset as nat;
        let cell = self.display_cell(row, col);
        match &cell.hyperlink {
            Some(link) => {
                return Some(link.url.clone());
            },
            None => {},
        }
        // The row's text, and the position in it of the clicked cell.
        let ghost cells = shown_line(g, off, row as nat);
        let cols = self.grid.cols();
        let mut text: Vec<char> = Vec::new();
        let mut click: usize = 0;
        let mut c: usize = 0;
        while c < cols
            invariant
                self.wf(),
                g == self.grid@,
                off == self.scroll_offset,
                cols == g.cols,
                cells == shown_line(g, off, row as nat),
                shown_defined(g, off, row as nat, col as nat),
                0 <= c <= cols,
                text@ == line_text_upto(cells, c as int),
                c > col ==> click == line_text_upto(cells, col as int).len(),
            decreases cols - c,
        {
            let cl = self.display_cell(row, c);
            if c == col {
                click = text.len();
            }
            let ghost before = text@;
            if cl.width != 0 {
                if cl.grapheme.len() == 0 {
                    text.push(' ');
                } else {
                    let mut k: usize = 0;
                    while k < cl.grapheme.len()
                        invariant
                            0 <= k <= cl.grapheme@.len(),
                            text@ == before + cl.grapheme@.take(k as int),
                        decreases cl.grapheme@.len() - k,
                    {
                        text.push(cl.grapheme[k]);
                        k = k + 1;
                        proof {
                            assert(text@ =~= before + cl.grapheme@.take(k as int));
                        }
                    }
                    proof {
                        assert(cl.grapheme@.take(cl.grapheme@.len() as int) =~= cl.grapheme@);
                    }
                }
            }
            proof {
                assert(cells[c as int] == cl@);
                assert(text@ =~= before + cell_text(cells[c as int]));
                assert(text@ =~= line_text_upto(cells, c + 1));
            }
            c = c + 1;
        }
        proof {
            assert(cells.len() == cols);
        }
        let http: Vec<char> = vec!['h', 't', 't', 'p', ':', '/', '/'];
        let https: Vec<char> = vec!['h', 't', 't', 'p', 's', ':', '/', '/'];
        let file: Vec<char> = vec!['f', 'i', 'l', 'e', ':', '/', '/'];
        proof {
            assert(http@ =~= http_prefix());
            assert(https@ =~= https_prefix());
            assert(file@ =~= file_prefix());
        }
        let mut found = find_url_with_prefix(&text, &http, click);
        if found.is_none() {
            found = find_url_with_prefix(&text, &https, click);
        }
        if found.is_none() {
            found = find_url_with_prefix(&text, &file, click);
        }
        match found {
            Some((s, e)) => {
                let mut url: Vec<char> = Vec::new();
                let mut j: usize = s;
                while j < e
                    invariant
                        s <= j <= e <= text@.len(),
                        url@ == text@.subrange(s as int, j as int),
                    decreases e - j,
                {
                    url.push(text[j]);
                    j = j + 1;
                    proof {
                        assert(url@ =~= text@.subrange(s as int, j as int));
                    }
                }
                Some(string_from_chars(&url))
            },
            None => None,
        }
    }
}

} // verus!
